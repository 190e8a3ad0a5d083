//! The entity model: rectangles, roles, bodies and the play field.
use vstd::prelude::*;
use crate::direction::{Velocity, VEL_SCALE, NORMALIZE_LIMIT, unit_direction, is_unit, normalize};

verus! {

/// Micro-pixels in one pixel.
pub const UNIT: i64 = 1_000_000;
/// Speed (pixels per second) of every body when it is spawned.
pub const STARTING_SPEED: i64 = 200;
/// What each collision adds to the speed of the ball and of the paddle it hit.
pub const SPEED_INCREASE: i64 = 25;
pub const PADDLE_WIDTH: i64 = 30_000_000;
pub const PADDLE_HEIGHT: i64 = 80_000_000;
/// Distance from a paddle's outer edge to the side of the field.
pub const PADDLE_MARGIN: i64 = 20_000_000;
pub const BALL_SIZE: i64 = 30_000_000;

/// Largest width or height of a rectangle or of the field.
pub const SIZE_LIMIT: i64 = 0x100_0000_0000;
/// Largest coordinate magnitude at the start of a frame.
pub const POS_LIMIT: i64 = 0x100_0000_0000;
/// Largest coordinate magnitude once bodies have moved within a frame.
pub const MOVED_LIMIT: i64 = 0x1000_0000_0000;
/// Largest coordinate magnitude after collisions within a frame.
pub const PUSHED_LIMIT: i64 = 0x2000_0000_0000;
/// Largest speed at the start of a frame.
pub const SPEED_LIMIT: i64 = 0x10_0000;
/// Largest frame time, in milliseconds.
pub const DT_LIMIT: i64 = 0x1000;

/// An axis-aligned rectangle: top-left corner, width and height.
#[derive(Clone, Copy, Debug, PartialEq, Eq, Structural)]
pub struct Rect {
    pub x: i64,
    pub y: i64,
    pub w: i64,
    pub h: i64,
}

pub open spec fn min(a: int, b: int) -> int {
    if a < b { a } else { b }
}

pub open spec fn max(a: int, b: int) -> int {
    if a < b { b } else { a }
}

/// Width of the common part of `a` and `b` along x (negative when apart).
pub open spec fn overlap_w(a: Rect, b: Rect) -> int {
    min(a.x + a.w, b.x + b.w) - max(a.x as int, b.x as int)
}

/// Height of the common part of `a` and `b` along y (negative when apart).
pub open spec fn overlap_h(a: Rect, b: Rect) -> int {
    min(a.y + a.h, b.y + b.h) - max(a.y as int, b.y as int)
}

/// The rectangles intersect; touching edges count.
pub open spec fn overlaps(a: Rect, b: Rect) -> bool {
    overlap_w(a, b) >= 0 && overlap_h(a, b) >= 0
}

pub open spec fn rect_ok(r: Rect, lim: int) -> bool {
    &&& -lim <= r.x <= lim
    &&& -lim <= r.y <= lim
    &&& 0 <= r.w <= SIZE_LIMIT
    &&& 0 <= r.h <= SIZE_LIMIT
}

/// The common part of two rectangles, if they intersect.
pub fn intersect(a: &Rect, b: &Rect) -> (r: Option<Rect>)
    requires
        rect_ok(*a, PUSHED_LIMIT as int),
        rect_ok(*b, PUSHED_LIMIT as int),
    ensures
        r is Some <==> overlaps(*a, *b),
        r matches Some(i) ==> i.w == overlap_w(*a, *b) && i.h == overlap_h(*a, *b) && i.x == max(
            a.x as int,
            b.x as int,
        ) && i.y == max(a.y as int, b.y as int),
{
    let left = if a.x < b.x { b.x } else { a.x };
    let top = if a.y < b.y { b.y } else { a.y };
    let right = if a.x + a.w < b.x + b.w { a.x + a.w } else { b.x + b.w };
    let bottom = if a.y + a.h < b.y + b.h { a.y + a.h } else { b.y + b.h };
    if right < left || bottom < top {
        None
    } else {
        Some(Rect { x: left, y: top, w: right - left, h: bottom - top })
    }
}

#[derive(Clone, Copy, Debug, PartialEq, Eq, Structural)]
pub enum Player {
    One,
    Two,
}

/// What a body is, which decides what the systems do with it.
#[derive(Clone, Copy, Debug, PartialEq, Eq, Structural)]
pub enum Role {
    /// Steered by its player's keys and kept inside the field.
    Paddle(Player),
    /// Bounces off the top and bottom and scores at the sides.
    Ball,
}

/// One entity: where it is, where it is heading, how fast, and what it is.
#[derive(Clone, Copy, Debug, PartialEq, Eq, Structural)]
pub struct Body {
    pub bounds: Rect,
    pub vel: Velocity,
    /// Pixels per second along a unit direction.
    pub speed: i64,
    pub role: Role,
}

/// The size of the play area.
#[derive(Clone, Copy, Debug, PartialEq, Eq, Structural)]
pub struct Field {
    pub width: i64,
    pub height: i64,
}

impl Field {
    /// Room for the paddles and the ball, within the size limit.
    pub open spec fn wf(self) -> bool {
        &&& 2 * (PADDLE_WIDTH + PADDLE_MARGIN) <= self.width <= SIZE_LIMIT
        &&& PADDLE_HEIGHT <= self.height <= SIZE_LIMIT
        &&& BALL_SIZE <= self.height
    }
}

pub open spec fn motion_ok(b: Body) -> bool {
    &&& -NORMALIZE_LIMIT <= b.vel.x <= NORMALIZE_LIMIT
    &&& -NORMALIZE_LIMIT <= b.vel.y <= NORMALIZE_LIMIT
    &&& 0 <= b.speed <= SPEED_LIMIT
}

/// The rectangle a body of `role` starts on.
pub open spec fn home(role: Role, f: Field) -> Rect {
    match role {
        Role::Paddle(Player::One) => Rect {
            x: PADDLE_MARGIN,
            y: (f.height / 2 - PADDLE_HEIGHT / 2) as i64,
            w: PADDLE_WIDTH,
            h: PADDLE_HEIGHT,
        },
        Role::Paddle(Player::Two) => Rect {
            x: (f.width - PADDLE_WIDTH - PADDLE_MARGIN) as i64,
            y: (f.height / 2 - PADDLE_HEIGHT / 2) as i64,
            w: PADDLE_WIDTH,
            h: PADDLE_HEIGHT,
        },
        Role::Ball => Rect {
            x: (f.width / 2 - BALL_SIZE / 2) as i64,
            y: (f.height / 2 - BALL_SIZE / 2) as i64,
            w: BALL_SIZE,
            h: BALL_SIZE,
        },
    }
}

/// The starting rectangle of a body of `role` on field `f`.
pub fn home_rect(role: Role, f: &Field) -> (r: Rect)
    requires
        f.wf(),
    ensures
        r == home(role, *f),
        rect_ok(r, POS_LIMIT as int),
{
    match role {
        Role::Paddle(Player::One) => Rect {
            x: PADDLE_MARGIN,
            y: f.height / 2 - PADDLE_HEIGHT / 2,
            w: PADDLE_WIDTH,
            h: PADDLE_HEIGHT,
        },
        Role::Paddle(Player::Two) => Rect {
            x: f.width - PADDLE_WIDTH - PADDLE_MARGIN,
            y: f.height / 2 - PADDLE_HEIGHT / 2,
            w: PADDLE_WIDTH,
            h: PADDLE_HEIGHT,
        },
        Role::Ball => Rect {
            x: f.width / 2 - BALL_SIZE / 2,
            y: f.height / 2 - BALL_SIZE / 2,
            w: BALL_SIZE,
            h: BALL_SIZE,
        },
    }
}

/// The three bodies of a new game: paddle one, paddle two, then the ball,
/// all at their home rectangles and starting speed. The paddles stand still;
/// the ball heads along the unit direction of `draw`.
pub open spec fn spawned(f: Field, draw: (i64, i64)) -> Seq<Body> {
    seq![
        Body {
            bounds: home(Role::Paddle(Player::One), f),
            vel: Velocity { x: 0, y: 0 },
            speed: STARTING_SPEED,
            role: Role::Paddle(Player::One),
        },
        Body {
            bounds: home(Role::Paddle(Player::Two), f),
            vel: Velocity { x: 0, y: 0 },
            speed: STARTING_SPEED,
            role: Role::Paddle(Player::Two),
        },
        Body {
            bounds: home(Role::Ball, f),
            vel: unit_direction(draw.0 as int, draw.1 as int),
            speed: STARTING_SPEED,
            role: Role::Ball,
        },
    ]
}

/// Creates the bodies of a new game; `draw` is a random direction for the
/// ball, each component in `[-VEL_SCALE, VEL_SCALE]`.
pub fn spawn_bodies(f: &Field, draw: (i64, i64)) -> (r: Vec<Body>)
    requires
        f.wf(),
        -VEL_SCALE <= draw.0 <= VEL_SCALE,
        -VEL_SCALE <= draw.1 <= VEL_SCALE,
    ensures
        r@ == spawned(*f, draw),
        is_unit(r@[2].vel),
{
    let mut r: Vec<Body> = Vec::new();
    let one = Role::Paddle(Player::One);
    let two = Role::Paddle(Player::Two);
    r.push(Body { bounds: home_rect(one, f), vel: Velocity { x: 0, y: 0 }, speed: STARTING_SPEED, role: one });
    r.push(Body { bounds: home_rect(two, f), vel: Velocity { x: 0, y: 0 }, speed: STARTING_SPEED, role: two });
    r.push(Body {
        bounds: home_rect(Role::Ball, f),
        vel: normalize(draw.0, draw.1),
        speed: STARTING_SPEED,
        role: Role::Ball,
    });
    assert(r@ =~= spawned(*f, draw));
    r
}

} // verus!
