use pong_sim::body::{
    home_rect, intersect, spawn_bodies, Body, Field, Player, Rect, Role, BALL_SIZE, PADDLE_HEIGHT,
    PADDLE_WIDTH, STARTING_SPEED, UNIT,
};
use pong_sim::direction::{isqrt, normalize, Velocity, VEL_SCALE};
use pong_sim::game::{play_frame, transition, Controls, Draws, Game, Mode};
use pong_sim::random::{roll_component, roll_direction};
use pong_sim::systems::{
    apply_velocity, bounce_balls, collide, confine_paddles, reset_bodies, score_exits,
    steer_paddles, PaddleKeys, COOLDOWN_MS,
};

fn field() -> Field {
    Field { width: 500 * UNIT, height: 500 * UNIT }
}

fn px(x: i64, y: i64, w: i64, h: i64) -> Rect {
    Rect { x: x * UNIT, y: y * UNIT, w: w * UNIT, h: h * UNIT }
}

fn paddle(p: Player, bounds: Rect) -> Body {
    Body { bounds, vel: Velocity { x: 0, y: 0 }, speed: STARTING_SPEED, role: Role::Paddle(p) }
}

fn ball(bounds: Rect, vel: Velocity) -> Body {
    Body { bounds, vel, speed: STARTING_SPEED, role: Role::Ball }
}

fn no_keys() -> PaddleKeys {
    PaddleKeys { one_up: false, one_down: false, two_up: false, two_down: false }
}

fn controls(start: bool, escape: bool, reset: bool) -> Controls {
    Controls { paddles: no_keys(), start, escape, reset }
}

fn is_unit(v: Velocity) -> bool {
    let (ax, ay) = (v.x.abs(), v.y.abs());
    let s = VEL_SCALE;
    ax * ax + ay * ay < (s + 1) * (s + 1) && (ax + 1) * (ax + 1) + (ay + 1) * (ay + 1) > s * s
}

#[test]
fn isqrt_exact_values() {
    assert_eq!(isqrt(0), 0);
    assert_eq!(isqrt(15), 3);
    assert_eq!(isqrt(16), 4);
    assert_eq!(isqrt(1_000_000), 1000);
    assert_eq!(isqrt(2_000_000), 1414);
}

#[test]
fn normalize_exact_values() {
    assert_eq!(normalize(3, 4), Velocity { x: 600, y: 800 });
    assert_eq!(normalize(-3, 4), Velocity { x: -600, y: 800 });
    assert_eq!(normalize(1, 1), Velocity { x: 707, y: 707 });
    assert_eq!(normalize(0, -5), Velocity { x: 0, y: -1000 });
    assert_eq!(normalize(0, 0), Velocity { x: 1000, y: 0 });
}

#[test]
fn normalize_gives_unit_length() {
    for a in -40..=40i64 {
        for b in -40..=40i64 {
            assert!(is_unit(normalize(a * 25, b * 25)));
        }
    }
}

#[test]
fn intersect_touching_and_apart() {
    let a = px(0, 0, 10, 10);
    assert_eq!(intersect(&a, &px(10, 0, 5, 5)), Some(px(10, 0, 0, 5)));
    assert_eq!(intersect(&a, &px(11, 0, 5, 5)), None);
    assert_eq!(intersect(&a, &px(5, 5, 10, 10)), Some(px(5, 5, 5, 5)));
}

#[test]
fn integration_is_exact() {
    let mut bodies = vec![ball(px(100, 100, 30, 30), Velocity { x: 600, y: -800 })];
    apply_velocity(&mut bodies, 16);
    // 600 * 200 * 16 = 1_920_000 micro-pixels; -800 * 200 * 16 = -2_560_000.
    assert_eq!(bodies[0].bounds.x, 100 * UNIT + 1_920_000);
    assert_eq!(bodies[0].bounds.y, 100 * UNIT - 2_560_000);
    assert_eq!(bodies[0].bounds.w, 30 * UNIT);
    let mut again = vec![ball(px(100, 100, 30, 30), Velocity { x: 600, y: -800 })];
    apply_velocity(&mut again, 16);
    assert_eq!(bodies, again);
}

#[test]
fn steering_follows_keys() {
    let mut bodies = vec![
        paddle(Player::One, px(20, 210, 30, 80)),
        paddle(Player::Two, px(450, 210, 30, 80)),
        ball(px(235, 235, 30, 30), Velocity { x: 600, y: 800 }),
    ];
    steer_paddles(&mut bodies, PaddleKeys { one_up: true, one_down: false, two_up: false, two_down: true });
    assert_eq!(bodies[0].vel.y, -VEL_SCALE);
    assert_eq!(bodies[1].vel.y, VEL_SCALE);
    assert_eq!(bodies[2].vel, Velocity { x: 600, y: 800 });
    steer_paddles(&mut bodies, PaddleKeys { one_up: true, one_down: true, two_up: false, two_down: false });
    assert_eq!(bodies[0].vel.y, 0);
    assert_eq!(bodies[1].vel.y, 0);
}

#[test]
fn confinement_clamps_and_is_idempotent() {
    let mut top = paddle(Player::One, px(20, -3, 30, 80));
    top.vel = Velocity { x: 0, y: -VEL_SCALE };
    let mut bottom = paddle(Player::Two, px(450, 430, 30, 80));
    bottom.vel = Velocity { x: 0, y: VEL_SCALE };
    let b = ball(px(235, -10, 30, 30), Velocity { x: 0, y: -VEL_SCALE });
    let mut bodies = vec![top, bottom, b];
    confine_paddles(&mut bodies, &field());
    assert_eq!(bodies[0].bounds.y, 0);
    assert_eq!(bodies[0].vel.y, 0);
    assert_eq!(bodies[1].bounds.y, 420 * UNIT);
    assert_eq!(bodies[1].vel.y, 0);
    assert_eq!(bodies[2], b);
    let once = bodies.clone();
    confine_paddles(&mut bodies, &field());
    assert_eq!(bodies, once);
}

#[test]
fn ball_bounces_at_top_and_bottom() {
    let mut bodies = vec![
        ball(px(100, 0, 30, 30), Velocity { x: 600, y: -800 }),
        ball(px(100, 471, 30, 30), Velocity { x: 600, y: 800 }),
        ball(px(100, 200, 30, 30), Velocity { x: 600, y: 800 }),
    ];
    bounce_balls(&mut bodies, &field());
    assert_eq!(bodies[0].vel, Velocity { x: 600, y: VEL_SCALE });
    assert_eq!(bodies[1].vel, Velocity { x: 600, y: -VEL_SCALE });
    assert_eq!(bodies[2].vel, Velocity { x: 600, y: 800 });
}

#[test]
fn collision_pushes_ball_along_x() {
    let mut bodies = vec![
        paddle(Player::One, px(20, 210, 30, 80)),
        ball(px(40, 240, 30, 30), Velocity { x: -VEL_SCALE, y: 0 }),
    ];
    let mut elapsed: u64 = COOLDOWN_MS;
    collide(&mut bodies, &mut elapsed, 0);
    assert_eq!(bodies[1].bounds, px(50, 240, 30, 30));
    assert!(bodies[1].vel.x > 0);
    assert_eq!(bodies[1].vel, Velocity { x: VEL_SCALE, y: 0 });
    assert_eq!(bodies[1].speed, STARTING_SPEED + 25);
    assert_eq!(bodies[0].speed, STARTING_SPEED + 25);
    assert_eq!(elapsed, 0);
}

#[test]
fn collision_pushes_ball_along_y() {
    let mut bodies = vec![
        paddle(Player::One, px(20, 210, 30, 80)),
        ball(px(25, 280, 30, 30), Velocity { x: 600, y: -800 }),
    ];
    let mut elapsed: u64 = 1000;
    collide(&mut bodies, &mut elapsed, 500);
    assert_eq!(bodies[1].bounds, px(25, 290, 30, 30));
    assert_eq!(bodies[1].vel, normalize(-600, 500));
    assert!(bodies[1].vel.x < 0);
    assert!(is_unit(bodies[1].vel));
}

#[test]
fn collision_waits_for_cooldown() {
    let start = vec![
        paddle(Player::One, px(20, 210, 30, 80)),
        ball(px(40, 240, 30, 30), Velocity { x: -VEL_SCALE, y: 0 }),
    ];
    let mut bodies = start.clone();
    let mut elapsed: u64 = COOLDOWN_MS - 1;
    collide(&mut bodies, &mut elapsed, 0);
    assert_eq!(bodies, start);
    assert_eq!(elapsed, COOLDOWN_MS - 1);
    // After the cooldown exactly one resolution, then none while overlapping.
    let mut bodies = vec![
        paddle(Player::One, px(20, 210, 30, 80)),
        ball(px(25, 215, 30, 30), Velocity { x: -VEL_SCALE, y: 0 }),
    ];
    let mut elapsed: u64 = COOLDOWN_MS;
    collide(&mut bodies, &mut elapsed, 0);
    let after_first = bodies.clone();
    assert_eq!(after_first[0].speed, STARTING_SPEED + 25);
    let mut e2 = elapsed + 100;
    collide(&mut bodies, &mut e2, 0);
    assert_eq!(bodies, after_first);
}

#[test]
fn collision_resolves_only_first_pair() {
    let mut bodies = vec![
        paddle(Player::One, px(20, 210, 30, 80)),
        paddle(Player::Two, px(450, 210, 30, 80)),
        ball(px(40, 240, 30, 30), Velocity { x: -VEL_SCALE, y: 0 }),
        ball(px(440, 240, 30, 30), Velocity { x: VEL_SCALE, y: 0 }),
    ];
    let mut elapsed: u64 = COOLDOWN_MS;
    collide(&mut bodies, &mut elapsed, 0);
    assert_eq!(bodies[0].speed, STARTING_SPEED + 25);
    assert_eq!(bodies[2].speed, STARTING_SPEED + 25);
    assert_eq!(bodies[1].speed, STARTING_SPEED);
    assert_eq!(bodies[3].speed, STARTING_SPEED);
}

#[test]
fn ball_out_left_scores_first_slot() {
    let f = field();
    let mut bodies = spawn_bodies(&f, (1000, 0));
    bodies[2].bounds = px(-5, 100, 30, 30);
    let mut score: (u64, u64) = (0, 0);
    let draws = vec![(0, 0), (0, 0), (3, 4)];
    let r = score_exits(&mut bodies, &f, &mut score, &draws);
    assert_eq!(r, Some(Player::One));
    assert_eq!(score, (1, 0));
    assert_eq!(bodies[2].bounds, px(235, 235, 30, 30));
    assert_eq!(bodies[2].vel, Velocity { x: 600, y: 800 });
    assert_eq!(transition(Mode::Playing, &controls(false, false, false), r), Mode::Scored(Player::One));
}

#[test]
fn ball_out_right_scores_second_slot() {
    let f = field();
    let mut bodies = spawn_bodies(&f, (1000, 0));
    bodies[0].bounds = px(20, 0, 30, 80);
    bodies[0].vel = Velocity { x: 0, y: VEL_SCALE };
    bodies[2].bounds = px(480, 100, 30, 30);
    let mut score: (u64, u64) = (4, 7);
    let draws = vec![(0, 0), (0, 0), (0, 1)];
    let r = score_exits(&mut bodies, &f, &mut score, &draws);
    assert_eq!(r, Some(Player::Two));
    assert_eq!(score, (4, 8));
    assert_eq!(bodies[0].bounds, px(20, 210, 30, 80));
    assert_eq!(bodies[0].vel, Velocity { x: 0, y: 0 });
    assert_eq!(bodies[1].bounds, px(450, 210, 30, 80));
}

#[test]
fn ball_inside_scores_nothing() {
    let f = field();
    let mut bodies = spawn_bodies(&f, (1000, 0));
    bodies[2].bounds = px(0, 100, 30, 30);
    let before = bodies.clone();
    let mut score: (u64, u64) = (2, 3);
    let r = score_exits(&mut bodies, &f, &mut score, &vec![(0, 0), (0, 0), (0, 0)]);
    assert_eq!(r, None);
    assert_eq!(score, (2, 3));
    assert_eq!(bodies, before);
    bodies[2].bounds = px(470, 100, 30, 30);
    let r = score_exits(&mut bodies, &f, &mut score, &vec![(0, 0), (0, 0), (0, 0)]);
    assert_eq!(r, None);
}

#[test]
fn reset_puts_bodies_home() {
    let f = field();
    let mut moving_up = paddle(Player::One, px(20, 0, 30, 80));
    moving_up.vel = Velocity { x: 0, y: -VEL_SCALE };
    moving_up.speed = STARTING_SPEED + 50;
    let mut moving_down = paddle(Player::Two, px(450, 420, 30, 80));
    moving_down.vel = Velocity { x: 0, y: VEL_SCALE };
    let mut bodies = vec![moving_up, moving_down, ball(px(3, 7, 30, 30), Velocity { x: 5, y: 5 })];
    reset_bodies(&mut bodies, &f, &vec![(0, 0), (0, 0), (-3, 4)]);
    assert_eq!(bodies[0].vel, Velocity { x: 0, y: 0 });
    assert_eq!(bodies[1].vel, Velocity { x: 0, y: 0 });
    assert_eq!(bodies[0].speed, STARTING_SPEED + 50);
    assert_eq!(bodies[0].bounds, px(20, 210, 30, 80));
    assert_eq!(bodies[1].bounds, px(450, 210, 30, 80));
    assert_eq!(bodies[2].bounds, px(235, 235, 30, 30));
    assert_eq!(bodies[2].vel, Velocity { x: -600, y: 800 });
    assert_eq!(home_rect(Role::Ball, &f), px(235, 235, 30, 30));
}

#[test]
fn spawn_places_three_bodies() {
    let f = field();
    let bodies = spawn_bodies(&f, (3, -4));
    assert_eq!(bodies.len(), 3);
    assert_eq!(bodies[0], paddle(Player::One, px(20, 210, 30, 80)));
    assert_eq!(bodies[1], paddle(Player::Two, px(450, 210, 30, 80)));
    assert_eq!(bodies[2].bounds, Rect { x: 235 * UNIT, y: 235 * UNIT, w: BALL_SIZE, h: BALL_SIZE });
    assert_eq!(bodies[2].vel, Velocity { x: 600, y: -800 });
    assert_eq!(bodies[0].bounds.w, PADDLE_WIDTH);
    assert_eq!(bodies[0].bounds.h, PADDLE_HEIGHT);
}

#[test]
fn paused_starts_only_on_start_key() {
    assert_eq!(transition(Mode::Paused, &controls(true, false, false), None), Mode::Playing);
    assert_eq!(transition(Mode::Paused, &controls(false, true, false), None), Mode::Paused);
    assert_eq!(transition(Mode::Paused, &controls(false, false, true), None), Mode::Paused);
    let mut held = controls(false, false, false);
    held.paddles.one_up = true;
    assert_eq!(transition(Mode::Paused, &held, None), Mode::Paused);
}

#[test]
fn mode_transitions() {
    let none = controls(false, false, false);
    assert_eq!(transition(Mode::Playing, &none, None), Mode::Playing);
    assert_eq!(transition(Mode::Playing, &controls(false, true, false), None), Mode::Paused);
    assert_eq!(transition(Mode::Playing, &controls(false, true, false), Some(Player::Two)), Mode::Paused);
    assert_eq!(transition(Mode::Scored(Player::Two), &controls(true, false, false), None), Mode::Playing);
    assert_eq!(transition(Mode::Scored(Player::Two), &controls(false, false, true), None), Mode::Paused);
    assert_eq!(transition(Mode::Scored(Player::Two), &controls(true, false, true), None), Mode::Paused);
    assert_eq!(transition(Mode::Scored(Player::One), &none, None), Mode::Scored(Player::One));
}

#[test]
fn play_frame_moves_ball() {
    let f = field();
    let mut bodies = spawn_bodies(&f, (1000, 0));
    let mut elapsed: u64 = 0;
    let mut score: (u64, u64) = (0, 0);
    let draws = Draws { rebound: 0, homes: vec![(0, 0), (0, 0), (1, 0)] };
    let r = play_frame(&mut bodies, &f, no_keys(), 16, &mut elapsed, &mut score, &draws);
    assert_eq!(r, None);
    assert_eq!(bodies[2].bounds.x, 235 * UNIT + 1000 * 200 * 16);
    assert_eq!(score, (0, 0));
}

#[test]
fn game_runs_through_modes() {
    let f = field();
    let mut g = Game::new(f, (1000, 0));
    assert_eq!(g.mode, Mode::Paused);
    assert_eq!(g.bodies(), spawn_bodies(&f, (1000, 0)));
    assert!(g.within_limits());
    let draws = Draws { rebound: 0, homes: vec![(0, 0), (0, 0), (1, 0)] };
    g.frame(&controls(false, false, false), 16, &draws);
    assert_eq!(g.mode, Mode::Paused);
    assert_eq!(g.elapsed, 16);
    g.frame(&controls(true, false, false), 16, &draws);
    assert_eq!(g.mode, Mode::Playing);
    g.frame(&controls(false, false, false), 16, &draws);
    assert_eq!(g.bodies()[2].bounds.x, 235 * UNIT + 3_200_000);
    g.frame(&controls(false, true, false), 16, &draws);
    assert_eq!(g.mode, Mode::Paused);
}

#[test]
fn game_scores_and_resets() {
    let f = field();
    let mut g = Game::new(f, (-1000, 0));
    let draws = Draws { rebound: 0, homes: vec![(0, 0), (0, 0), (-1, 0)] };
    g.frame(&controls(true, false, false), 0, &draws);
    // The ball travels left at 200 px/s from x = 235: it leaves after 1.2 s,
    // missing paddle one only if that paddle has moved away; move it down.
    let mut keys = controls(false, false, false);
    keys.paddles.one_down = true;
    let mut frames = 0;
    while g.mode == Mode::Playing && frames < 200 {
        assert!(g.within_limits());
        g.frame(&keys, 16, &draws);
        frames += 1;
    }
    assert_eq!(g.mode, Mode::Scored(Player::One));
    assert_eq!(g.score, (1, 0));
    assert_eq!(g.bodies()[2].bounds, px(235, 235, 30, 30));
    // Paddle one was moving down when the point was scored; it is home and still.
    assert_eq!(g.bodies()[0].bounds, px(20, 210, 30, 80));
    assert_eq!(g.bodies()[0].vel, Velocity { x: 0, y: 0 });
    g.frame(&controls(false, false, true), 16, &draws);
    assert_eq!(g.mode, Mode::Paused);
    assert_eq!(g.score, (0, 0));
}

#[test]
fn random_draws_are_in_range_and_vary() {
    let mut seen_other = false;
    for _ in 0..200 {
        let c = roll_component();
        assert!(-VEL_SCALE <= c && c <= VEL_SCALE);
        if c != -VEL_SCALE && c != VEL_SCALE {
            seen_other = true;
        }
        let (x, y) = roll_direction();
        assert!(x.abs() <= VEL_SCALE && y.abs() <= VEL_SCALE);
    }
    assert!(seen_other);
    let d = Draws::roll(5);
    assert_eq!(d.homes.len(), 5);
    assert!(d.rebound.abs() <= VEL_SCALE);
}

#[test]
fn normalize_keeps_small_components() {
    assert_eq!(normalize(2048, 1), Velocity { x: 1000, y: 1 });
    assert_eq!(normalize(-2048, -1), Velocity { x: -1000, y: -1 });
    assert_eq!(normalize(1000, 1), Velocity { x: 1000, y: 1 });
    assert!(is_unit(normalize(2048, 1)));
}

#[test]
fn collision_keeps_sign_of_draw() {
    let mut bodies = vec![
        paddle(Player::One, px(20, 210, 30, 80)),
        ball(px(40, 240, 30, 30), Velocity { x: 2048, y: 0 }),
    ];
    let mut elapsed: u64 = COOLDOWN_MS;
    collide(&mut bodies, &mut elapsed, 1);
    assert!(bodies[1].vel.x < 0);
    assert!(bodies[1].vel.y > 0);
    assert!(is_unit(bodies[1].vel));
}
