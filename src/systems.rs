//! The per-frame systems, each a pass over every body in the store.
use vstd::prelude::*;
use crate::body::{spawned, home, home_rect, intersect, overlaps, overlap_w, overlap_h, SPEED_INCREASE, PUSHED_LIMIT, Rect, Body, Role, Player, Field, rect_ok, motion_ok, SIZE_LIMIT, POS_LIMIT, MOVED_LIMIT, SPEED_LIMIT, DT_LIMIT};
use crate::direction::{Velocity, VEL_SCALE, NORMALIZE_LIMIT, unit_direction, is_unit, normalize};

verus! {

/// Time in milliseconds that must pass after a collision before the next one
/// is resolved.
pub const COOLDOWN_MS: u64 = 200;

/// All bodies have the size, position, direction and speed limits that a
/// frame starts from, with positions within `lim`.
pub open spec fn all_ok(s: Seq<Body>, lim: int) -> bool {
    forall|i: int| 0 <= i < s.len() ==> rect_ok(#[trigger] s[i].bounds, lim) && motion_ok(s[i])
}

// ---- motion ----

/// `b` moved by `vel * speed * dt`.
pub open spec fn integrated(b: Body, dt: int) -> Body {
    Body {
        bounds: Rect {
            x: (b.bounds.x + b.vel.x * b.speed * dt) as i64,
            y: (b.bounds.y + b.vel.y * b.speed * dt) as i64,
            ..b.bounds
        },
        ..b
    }
}

proof fn lemma_step_bound(v: int, speed: int, dt: int)
    requires
        -NORMALIZE_LIMIT <= v <= NORMALIZE_LIMIT,
        0 <= speed <= SPEED_LIMIT,
        0 <= dt <= DT_LIMIT,
    ensures
        -0x1_0000_0000 <= v * speed <= 0x1_0000_0000,
        -0x800_0000_0000 <= v * speed * dt <= 0x800_0000_0000,
{
    assert(-2048 * 0x10_0000 <= v * speed <= 2048 * 0x10_0000) by (nonlinear_arith)
        requires -2048 <= v <= 2048, 0 <= speed <= 0x10_0000;
    assert(-2048 * 0x10_0000 * 0x1000 <= v * speed * dt <= 2048 * 0x10_0000 * 0x1000)
        by (nonlinear_arith)
        requires -2048 <= v <= 2048, 0 <= speed <= 0x10_0000, 0 <= dt <= 0x1000;
}

/// Moves every body along its direction for `dt` milliseconds.
pub fn apply_velocity(bodies: &mut Vec<Body>, dt: i64)
    requires
        all_ok(old(bodies)@, POS_LIMIT as int),
        0 <= dt <= DT_LIMIT,
    ensures
        final(bodies)@.len() == old(bodies)@.len(),
        forall|i: int|
            0 <= i < old(bodies)@.len() ==> #[trigger] final(bodies)@[i] == integrated(
                old(bodies)@[i],
                dt as int,
            ),
        all_ok(final(bodies)@, MOVED_LIMIT as int),
{
    let n = bodies.len();
    let mut i: usize = 0;
    while i < n
        invariant
            n == bodies@.len() == old(bodies)@.len(),
            0 <= i <= n,
            0 <= dt <= DT_LIMIT,
            all_ok(old(bodies)@, POS_LIMIT as int),
            forall|j: int| i <= j < n ==> #[trigger] bodies@[j] == old(bodies)@[j],
            forall|j: int|
                0 <= j < i ==> #[trigger] bodies@[j] == integrated(old(bodies)@[j], dt as int),
            forall|j: int| 0 <= j < i ==> rect_ok(#[trigger] bodies@[j].bounds, MOVED_LIMIT as int) && motion_ok(bodies@[j]),
        decreases n - i,
    {
        let b = bodies[i];
        assert(rect_ok(old(bodies)@[i as int].bounds, POS_LIMIT as int) && motion_ok(old(bodies)@[i as int]));
        proof {
            lemma_step_bound(b.vel.x as int, b.speed as int, dt as int);
            lemma_step_bound(b.vel.y as int, b.speed as int, dt as int);
        }
        let dx = b.vel.x * b.speed * dt;
        let dy = b.vel.y * b.speed * dt;
        let moved = Body {
            bounds: Rect { x: b.bounds.x + dx, y: b.bounds.y + dy, ..b.bounds },
            ..b
        };
        bodies.set(i, moved);
        i += 1;
    }
}

// ---- input ----

/// Which movement keys are held down this frame.
#[derive(Clone, Copy, Debug, PartialEq, Eq, Structural)]
pub struct PaddleKeys {
    pub one_up: bool,
    pub one_down: bool,
    pub two_up: bool,
    pub two_down: bool,
}

/// The vertical direction a paddle's keys ask for: up alone is `-VEL_SCALE`,
/// down alone `VEL_SCALE`, neither or both `0`.
pub open spec fn key_direction(up: bool, down: bool) -> i64 {
    if up && !down {
        (-VEL_SCALE) as i64
    } else if down && !up {
        VEL_SCALE
    } else {
        0
    }
}

/// A paddle's vertical direction set from its player's keys; other bodies
/// unchanged.
pub open spec fn steered(b: Body, k: PaddleKeys) -> Body {
    match b.role {
        Role::Paddle(Player::One) => Body {
            vel: Velocity { y: key_direction(k.one_up, k.one_down), ..b.vel },
            ..b
        },
        Role::Paddle(Player::Two) => Body {
            vel: Velocity { y: key_direction(k.two_up, k.two_down), ..b.vel },
            ..b
        },
        Role::Ball => b,
    }
}

/// Sets each paddle's vertical direction from the keys of its player.
pub fn steer_paddles(bodies: &mut Vec<Body>, k: PaddleKeys)
    ensures
        final(bodies)@ == old(bodies)@.map_values(|b: Body| steered(b, k)),
{
    let n = bodies.len();
    let mut i: usize = 0;
    while i < n
        invariant
            n == bodies@.len() == old(bodies)@.len(),
            0 <= i <= n,
            forall|j: int| i <= j < n ==> #[trigger] bodies@[j] == old(bodies)@[j],
            forall|j: int| 0 <= j < i ==> #[trigger] bodies@[j] == steered(old(bodies)@[j], k),
        decreases n - i,
    {
        let b = bodies[i];
        let (up, down) = match b.role {
            Role::Paddle(Player::One) => (k.one_up, k.one_down),
            Role::Paddle(Player::Two) => (k.two_up, k.two_down),
            Role::Ball => (false, false),
        };
        if let Role::Paddle(_) = b.role {
            let y: i64 = if up && !down {
                -VEL_SCALE
            } else if down && !up {
                VEL_SCALE
            } else {
                0
            };
            bodies.set(i, Body { vel: Velocity { y, ..b.vel }, ..b });
        }
        i += 1;
    }
    assert(bodies@ =~= old(bodies)@.map_values(|b: Body| steered(b, k)));
}

// ---- confinement ----

/// A paddle held between the top and the bottom of a field `height` tall,
/// its vertical direction zeroed where it was clamped; other bodies unchanged.
pub open spec fn confined(b: Body, height: int) -> Body {
    match b.role {
        Role::Paddle(_) => if b.bounds.y < 0 {
            Body { bounds: Rect { y: 0, ..b.bounds }, vel: Velocity { y: 0, ..b.vel }, ..b }
        } else if b.bounds.y + b.bounds.h > height {
            Body {
                bounds: Rect { y: (height - b.bounds.h) as i64, ..b.bounds },
                vel: Velocity { y: 0, ..b.vel },
                ..b
            }
        } else {
            b
        },
        Role::Ball => b,
    }
}

/// Keeps every paddle inside the field vertically.
pub fn confine_paddles(bodies: &mut Vec<Body>, f: &Field)
    requires
        f.wf(),
        all_ok(old(bodies)@, MOVED_LIMIT as int),
    ensures
        final(bodies)@ == old(bodies)@.map_values(|b: Body| confined(b, f.height as int)),
        all_ok(final(bodies)@, MOVED_LIMIT as int),
{
    let n = bodies.len();
    let mut i: usize = 0;
    while i < n
        invariant
            n == bodies@.len() == old(bodies)@.len(),
            0 <= i <= n,
            f.wf(),
            all_ok(old(bodies)@, MOVED_LIMIT as int),
            forall|j: int| i <= j < n ==> #[trigger] bodies@[j] == old(bodies)@[j],
            forall|j: int|
                0 <= j < i ==> #[trigger] bodies@[j] == confined(old(bodies)@[j], f.height as int),
        decreases n - i,
    {
        let b = bodies[i];
        assert(rect_ok(old(bodies)@[i as int].bounds, MOVED_LIMIT as int));
        if let Role::Paddle(_) = b.role {
            if b.bounds.y < 0 {
                bodies.set(i, Body { bounds: Rect { y: 0, ..b.bounds }, vel: Velocity { y: 0, ..b.vel }, ..b });
            } else if b.bounds.y + b.bounds.h > f.height {
                bodies.set(i, Body {
                    bounds: Rect { y: f.height - b.bounds.h, ..b.bounds },
                    vel: Velocity { y: 0, ..b.vel },
                    ..b
                });
            }
        }
        i += 1;
    }
    assert(bodies@ =~= old(bodies)@.map_values(|b: Body| confined(b, f.height as int)));
    assert forall|j: int| 0 <= j < n implies rect_ok(#[trigger] bodies@[j].bounds, MOVED_LIMIT as int) && motion_ok(bodies@[j]) by {
        assert(rect_ok(old(bodies)@[j].bounds, MOVED_LIMIT as int) && motion_ok(old(bodies)@[j]));
    }
}

/// Confining a body a second time changes nothing, for a body no taller
/// than the field.
pub proof fn lemma_confine_idempotent(b: Body, height: int)
    requires
        0 <= b.bounds.h <= height <= SIZE_LIMIT,
    ensures
        confined(confined(b, height), height) == confined(b, height),
{
}

// ---- bounce ----

/// A ball at or past the top heads down, at or past the bottom heads up;
/// other bodies unchanged.
pub open spec fn bounced(b: Body, height: int) -> Body {
    match b.role {
        Role::Ball => if b.bounds.y <= 0 {
            Body { vel: Velocity { y: VEL_SCALE, ..b.vel }, ..b }
        } else if b.bounds.y + b.bounds.h >= height {
            Body { vel: Velocity { y: (-VEL_SCALE) as i64, ..b.vel }, ..b }
        } else {
            b
        },
        Role::Paddle(_) => b,
    }
}

/// Turns each ball that reached the top or the bottom back into the field.
pub fn bounce_balls(bodies: &mut Vec<Body>, f: &Field)
    requires
        f.wf(),
        all_ok(old(bodies)@, MOVED_LIMIT as int),
    ensures
        final(bodies)@ == old(bodies)@.map_values(|b: Body| bounced(b, f.height as int)),
        all_ok(final(bodies)@, MOVED_LIMIT as int),
{
    let n = bodies.len();
    let mut i: usize = 0;
    while i < n
        invariant
            n == bodies@.len() == old(bodies)@.len(),
            0 <= i <= n,
            f.wf(),
            all_ok(old(bodies)@, MOVED_LIMIT as int),
            forall|j: int| i <= j < n ==> #[trigger] bodies@[j] == old(bodies)@[j],
            forall|j: int|
                0 <= j < i ==> #[trigger] bodies@[j] == bounced(old(bodies)@[j], f.height as int),
        decreases n - i,
    {
        let b = bodies[i];
        assert(rect_ok(old(bodies)@[i as int].bounds, MOVED_LIMIT as int));
        if let Role::Ball = b.role {
            if b.bounds.y <= 0 {
                bodies.set(i, Body { vel: Velocity { y: VEL_SCALE, ..b.vel }, ..b });
            } else if b.bounds.y + b.bounds.h >= f.height {
                bodies.set(i, Body { vel: Velocity { y: -VEL_SCALE, ..b.vel }, ..b });
            }
        }
        i += 1;
    }
    assert(bodies@ =~= old(bodies)@.map_values(|b: Body| bounced(b, f.height as int)));
    assert forall|j: int| 0 <= j < n implies rect_ok(#[trigger] bodies@[j].bounds, MOVED_LIMIT as int) && motion_ok(bodies@[j]) by {
        assert(rect_ok(old(bodies)@[j].bounds, MOVED_LIMIT as int) && motion_ok(old(bodies)@[j]));
    }
}

// ---- collision ----

/// Body `p` is a paddle, body `q` a ball, and their rectangles intersect.
pub open spec fn hits(s: Seq<Body>, p: int, q: int) -> bool {
    &&& 0 <= p < s.len()
    &&& 0 <= q < s.len()
    &&& s[p].role is Paddle
    &&& s[q].role is Ball
    &&& overlaps(s[p].bounds, s[q].bounds)
}

/// `(p, q)` is the first hitting pair, paddles in store order and, for each
/// paddle, balls in store order.
pub open spec fn first_hit(s: Seq<Body>, p: int, q: int) -> bool {
    &&& hits(s, p, q)
    &&& forall|p2: int, q2: int| #[trigger] hits(s, p2, q2) ==> p < p2 || (p == p2 && q <= q2)
}

/// The ball's rectangle pushed out of the paddle's along the axis of the
/// smaller overlap, away from the paddle.
pub open spec fn pushed_out(ball: Rect, paddle: Rect) -> Rect {
    let w = overlap_w(paddle, ball);
    let h = overlap_h(paddle, ball);
    if w < h {
        if paddle.x < ball.x {
            Rect { x: (ball.x + w) as i64, ..ball }
        } else {
            Rect { x: (ball.x - w) as i64, ..ball }
        }
    } else {
        if paddle.y < ball.y {
            Rect { y: (ball.y + h) as i64, ..ball }
        } else {
            Rect { y: (ball.y - h) as i64, ..ball }
        }
    }
}

/// The ball after it hit `paddle`: pushed out, its horizontal direction
/// reversed with `draw` as the new vertical part, made unit, and sped up.
pub open spec fn rebounded(ball: Body, paddle: Body, draw: int) -> Body {
    Body {
        bounds: pushed_out(ball.bounds, paddle.bounds),
        vel: unit_direction(-ball.vel.x, draw),
        speed: (ball.speed + SPEED_INCREASE) as i64,
        ..ball
    }
}

/// The paddle after it hit a ball: sped up.
pub open spec fn sped_up(paddle: Body) -> Body {
    Body { speed: (paddle.speed + SPEED_INCREASE) as i64, ..paddle }
}

/// A ball's direction after a collision reverses the old horizontal sign
/// and takes the sign of the random vertical part `draw`.
pub open spec fn rebound_signs(before: Velocity, after: Velocity, draw: int) -> bool {
    &&& before.x > 0 ==> after.x < 0
    &&& before.x < 0 ==> after.x > 0
    &&& draw > 0 ==> after.y > 0
    &&& draw < 0 ==> after.y < 0
}

/// One collision resolved, between paddle `p` and ball `q`.
pub open spec fn resolved(s: Seq<Body>, p: int, q: int, draw: int) -> Seq<Body> {
    s.update(q, rebounded(s[q], s[p], draw)).update(p, sped_up(s[p]))
}

/// What the collision system makes of bodies `s` and the time since the last
/// collision `e`: while the cooldown runs, nothing; after it, the first
/// hitting pair, if any, is resolved and the time starts again from zero.
pub open spec fn collision_outcome(
    s: Seq<Body>,
    e: u64,
    draw: int,
    s2: Seq<Body>,
    e2: u64,
) -> bool {
    if e >= COOLDOWN_MS && exists|p: int, q: int| hits(s, p, q) {
        &&& e2 == 0
        &&& exists|p: int, q: int| first_hit(s, p, q) && s2 == resolved(s, p, q, draw)
    } else {
        s2 == s && e2 == e
    }
}

/// Resolves at most one paddle-ball collision, and only once `elapsed` (the
/// milliseconds since the last one) has reached the cooldown; `draw`, in
/// `[-VEL_SCALE, VEL_SCALE]`, is the random vertical part of the new
/// direction.
pub fn collide(bodies: &mut Vec<Body>, elapsed: &mut u64, draw: i64)
    requires
        *old(elapsed) >= COOLDOWN_MS ==> all_ok(old(bodies)@, MOVED_LIMIT as int) && -VEL_SCALE
            <= draw <= VEL_SCALE,
    ensures
        collision_outcome(old(bodies)@, *old(elapsed), draw as int, final(bodies)@, *final(elapsed)),
        final(bodies)@.len() == old(bodies)@.len(),
        all_ok(old(bodies)@, MOVED_LIMIT as int) ==> forall|i: int|
            0 <= i < final(bodies)@.len() ==> rect_ok(#[trigger] final(bodies)@[i].bounds, PUSHED_LIMIT as int),
        forall|i: int|
            0 <= i < final(bodies)@.len() && #[trigger] final(bodies)@[i] != old(bodies)@[i]
                ==> (final(bodies)@[i].role is Ball ==> is_unit(final(bodies)@[i].vel)),
        forall|i: int|
            0 <= i < final(bodies)@.len() && #[trigger] final(bodies)@[i] != old(bodies)@[i]
                && final(bodies)@[i].role is Ball ==> rebound_signs(
                old(bodies)@[i].vel,
                final(bodies)@[i].vel,
                draw as int,
            ),
{
    let n = bodies.len();
    assert(all_ok(bodies@, MOVED_LIMIT as int) ==> forall|i: int| 0 <= i < n ==> rect_ok(#[trigger] bodies@[i].bounds, PUSHED_LIMIT as int)) by {
        if all_ok(bodies@, MOVED_LIMIT as int) {
            assert forall|i: int| 0 <= i < n implies rect_ok(#[trigger] bodies@[i].bounds, PUSHED_LIMIT as int) by {
                assert(rect_ok(bodies@[i].bounds, MOVED_LIMIT as int));
            }
        }
    }
    if *elapsed < COOLDOWN_MS {
        return;
    }
    let mut p: usize = 0;
    while p < n
        invariant
            n == bodies@.len(),
            bodies@ == old(bodies)@,
            *elapsed == *old(elapsed),
            *elapsed >= COOLDOWN_MS,
            0 <= p <= n,
            all_ok(old(bodies)@, MOVED_LIMIT as int),
            -VEL_SCALE <= draw <= VEL_SCALE,
            forall|p2: int, q2: int| 0 <= p2 < p ==> !#[trigger] hits(bodies@, p2, q2),
        decreases n - p,
    {
        let paddle = bodies[p];
        if let Role::Paddle(_) = paddle.role {
            let mut q: usize = 0;
            while q < n
                invariant
                    n == bodies@.len(),
                    bodies@ == old(bodies)@,
                    *elapsed == *old(elapsed),
                    *elapsed >= COOLDOWN_MS,
                    0 <= p < n,
                    0 <= q <= n,
                    paddle == bodies@[p as int],
                    paddle.role is Paddle,
                    all_ok(old(bodies)@, MOVED_LIMIT as int),
                    -VEL_SCALE <= draw <= VEL_SCALE,
                    forall|p2: int, q2: int| 0 <= p2 < p ==> !#[trigger] hits(bodies@, p2, q2),
                    forall|q2: int| 0 <= q2 < q ==> !#[trigger] hits(bodies@, p as int, q2),
                decreases n - q,
            {
                let ball = bodies[q];
                assert(rect_ok(bodies@[p as int].bounds, MOVED_LIMIT as int) && motion_ok(bodies@[p as int]));
                assert(rect_ok(bodies@[q as int].bounds, MOVED_LIMIT as int) && motion_ok(bodies@[q as int]));
                if let Role::Ball = ball.role {
                    if let Some(common) = intersect(&paddle.bounds, &ball.bounds) {
                        let s0 = Ghost(bodies@);
                        assert(first_hit(s0@, p as int, q as int));
                        let bounds = if common.w < common.h {
                            if paddle.bounds.x < ball.bounds.x {
                                Rect { x: ball.bounds.x + common.w, ..ball.bounds }
                            } else {
                                Rect { x: ball.bounds.x - common.w, ..ball.bounds }
                            }
                        } else {
                            if paddle.bounds.y < ball.bounds.y {
                                Rect { y: ball.bounds.y + common.h, ..ball.bounds }
                            } else {
                                Rect { y: ball.bounds.y - common.h, ..ball.bounds }
                            }
                        };
                        let vel = normalize(-ball.vel.x, draw);
                        bodies.set(q, Body {
                            bounds,
                            vel,
                            speed: ball.speed + SPEED_INCREASE,
                            ..ball
                        });
                        bodies.set(p, Body { speed: paddle.speed + SPEED_INCREASE, ..paddle });
                        *elapsed = 0;
                        assert(bodies@ =~= resolved(s0@, p as int, q as int, draw as int));
                        assert forall|i: int| 0 <= i < n implies rect_ok(#[trigger] bodies@[i].bounds, PUSHED_LIMIT as int) by {
                            assert(rect_ok(s0@[i].bounds, MOVED_LIMIT as int));
                        }
                        return;
                    }
                }
                q += 1;
            }
        }
        p += 1;
    }
}

// ---- scoring and reset ----

/// A ball whose left edge has passed the left side of the field.
pub open spec fn exits_left(b: Body) -> bool {
    b.role is Ball && b.bounds.x < 0
}

/// A ball whose right edge has passed the right side of a field `width` wide,
/// and that has not passed the left side.
pub open spec fn exits_right(b: Body, width: int) -> bool {
    b.role is Ball && b.bounds.x >= 0 && b.bounds.x + b.bounds.w > width
}

/// A ball not wholly within `[0, width]` horizontally.
pub open spec fn exits(b: Body, width: int) -> bool {
    b.role is Ball && !(0 <= b.bounds.x && b.bounds.x + b.bounds.w <= width)
}

/// How many balls left on the left.
pub open spec fn count_left(s: Seq<Body>) -> nat
    decreases s.len(),
{
    if s.len() == 0 {
        0
    } else {
        count_left(s.drop_last()) + if exits_left(s.last()) { 1nat } else { 0nat }
    }
}

/// How many balls left on the right.
pub open spec fn count_right(s: Seq<Body>, width: int) -> nat
    decreases s.len(),
{
    if s.len() == 0 {
        0
    } else {
        count_right(s.drop_last(), width) + if exits_right(s.last(), width) { 1nat } else { 0nat }
    }
}

/// How many balls left the field on either side.
pub open spec fn count_exits(s: Seq<Body>, width: int) -> nat
    decreases s.len(),
{
    if s.len() == 0 {
        0
    } else {
        count_exits(s.drop_last(), width) + if exits(s.last(), width) { 1nat } else { 0nat }
    }
}

/// The player credited for the last ball in store order that left the field:
/// a ball out on the left counts for player one, on the right for player two.
pub open spec fn last_scorer(s: Seq<Body>, width: int) -> Option<Player>
    decreases s.len(),
{
    if s.len() == 0 {
        None
    } else if exits_left(s.last()) {
        Some(Player::One)
    } else if exits_right(s.last(), width) {
        Some(Player::Two)
    } else {
        last_scorer(s.drop_last(), width)
    }
}

/// Each ball that leaves the field is counted once, on exactly one side.
pub proof fn lemma_exit_scores_once(s: Seq<Body>, width: int)
    ensures
        count_left(s) + count_right(s, width) == count_exits(s, width),
        count_exits(s, width) <= s.len(),
        last_scorer(s, width) is None <==> count_exits(s, width) == 0,
    decreases s.len(),
{
    if s.len() > 0 {
        lemma_exit_scores_once(s.drop_last(), width);
    }
}

/// `b` back on its spawn state: on its home rectangle, a paddle standing
/// still and a ball heading along the unit direction of `draw`. Speeds are
/// kept.
pub open spec fn reset_body(b: Body, f: Field, draw: (i64, i64)) -> Body {
    match b.role {
        Role::Ball => Body {
            bounds: home(b.role, f),
            vel: unit_direction(draw.0 as int, draw.1 as int),
            ..b
        },
        Role::Paddle(_) => Body { bounds: home(b.role, f), vel: Velocity { x: 0, y: 0 }, ..b },
    }
}

pub open spec fn reset_all(s: Seq<Body>, f: Field, draws: Seq<(i64, i64)>) -> Seq<Body> {
    Seq::new(s.len(), |i: int| reset_body(s[i], f, draws[i]))
}

pub open spec fn draws_ok(draws: Seq<(i64, i64)>) -> bool {
    forall|i: int|
        0 <= i < draws.len() ==> -VEL_SCALE <= #[trigger] draws[i].0 <= VEL_SCALE && -VEL_SCALE
            <= draws[i].1 <= VEL_SCALE
}

/// Puts every body back on its home rectangle; paddles stand still and ball
/// `i` heads along the unit direction of `draws[i]`.
pub fn reset_bodies(bodies: &mut Vec<Body>, f: &Field, draws: &Vec<(i64, i64)>)
    requires
        f.wf(),
        draws@.len() == old(bodies)@.len(),
        draws_ok(draws@),
    ensures
        final(bodies)@ == reset_all(old(bodies)@, *f, draws@),
        forall|i: int|
            0 <= i < final(bodies)@.len() ==> (#[trigger] final(bodies)@[i]).bounds == home(
                old(bodies)@[i].role,
                *f,
            ),
        forall|i: int|
            0 <= i < final(bodies)@.len() && final(bodies)@[i].role is Ball ==> is_unit(
                #[trigger] final(bodies)@[i].vel,
            ),
        forall|i: int|
            0 <= i < final(bodies)@.len() && final(bodies)@[i].role is Paddle ==> (
            #[trigger] final(bodies)@[i]).vel == (Velocity { x: 0, y: 0 }),
{
    let n = bodies.len();
    let mut i: usize = 0;
    while i < n
        invariant
            n == bodies@.len() == old(bodies)@.len() == draws@.len(),
            0 <= i <= n,
            f.wf(),
            draws_ok(draws@),
            forall|j: int| i <= j < n ==> #[trigger] bodies@[j] == old(bodies)@[j],
            forall|j: int|
                0 <= j < i ==> #[trigger] bodies@[j] == reset_body(old(bodies)@[j], *f, draws@[j]),
            forall|j: int|
                0 <= j < i && bodies@[j].role is Ball ==> is_unit(#[trigger] bodies@[j].vel),
        decreases n - i,
    {
        let b = bodies[i];
        let bounds = home_rect(b.role, f);
        if let Role::Ball = b.role {
            let d = draws[i];
            assert(-VEL_SCALE <= draws@[i as int].0 <= VEL_SCALE);
            bodies.set(i, Body { bounds, vel: normalize(d.0, d.1), ..b });
        } else {
            bodies.set(i, Body { bounds, vel: Velocity { x: 0, y: 0 }, ..b });
        }
        i += 1;
    }
    assert(bodies@ =~= reset_all(old(bodies)@, *f, draws@));
}

/// Credits a point for each ball that left the field (left side to the first
/// slot, right side to the second) and, if any did, resets every body and
/// reports the player credited for the last of them.
pub fn score_exits(
    bodies: &mut Vec<Body>,
    f: &Field,
    score: &mut (u64, u64),
    draws: &Vec<(i64, i64)>,
) -> (r: Option<Player>)
    requires
        f.wf(),
        forall|i: int| 0 <= i < old(bodies)@.len() ==> rect_ok(#[trigger] old(bodies)@[i].bounds, PUSHED_LIMIT as int),
        draws@.len() == old(bodies)@.len(),
        draws_ok(draws@),
        old(score).0 + old(bodies)@.len() <= u64::MAX,
        old(score).1 + old(bodies)@.len() <= u64::MAX,
    ensures
        r == last_scorer(old(bodies)@, f.width as int),
        final(score).0 == old(score).0 + count_left(old(bodies)@),
        final(score).1 == old(score).1 + count_right(old(bodies)@, f.width as int),
        r is None ==> final(bodies)@ == old(bodies)@,
        r is Some ==> final(bodies)@ == reset_all(old(bodies)@, *f, draws@),
{
    let n = bodies.len();
    let ghost s = bodies@;
    let ghost w = f.width as int;
    let mut signal: Option<Player> = None;
    let mut i: usize = 0;
    while i < n
        invariant
            n == bodies@.len(),
            bodies@ == s,
            s == old(bodies)@,
            w == f.width,
            0 <= i <= n,
            f.wf(),
            forall|j: int| 0 <= j < n ==> rect_ok(#[trigger] s[j].bounds, PUSHED_LIMIT as int),
            old(score).0 + n <= u64::MAX,
            old(score).1 + n <= u64::MAX,
            score.0 == old(score).0 + count_left(s.take(i as int)),
            score.1 == old(score).1 + count_right(s.take(i as int), w),
            signal == last_scorer(s.take(i as int), w),
        decreases n - i,
    {
        let b = bodies[i];
        assert(rect_ok(s[i as int].bounds, PUSHED_LIMIT as int));
        proof {
            let t = s.take(i as int + 1);
            assert(t.drop_last() =~= s.take(i as int));
            assert(t.last() == b);
            lemma_exit_scores_once(s.take(i as int), w);
        }
        if let Role::Ball = b.role {
            if b.bounds.x < 0 {
                score.0 = score.0 + 1;
                signal = Some(Player::One);
            } else if b.bounds.x + b.bounds.w > f.width {
                score.1 = score.1 + 1;
                signal = Some(Player::Two);
            }
        }
        i += 1;
    }
    assert(s.take(n as int) =~= s);
    if signal.is_some() {
        reset_bodies(bodies, f, draws);
    }
    signal
}

// ---- laws ----

/// Within the cooldown after a resolved collision, the collision system
/// changes nothing, however the bodies still overlap.
pub proof fn lemma_cooldown_blocks_repeat(
    s: Seq<Body>,
    e: u64,
    draw: int,
    s2: Seq<Body>,
    e2: u64,
    t: u64,
    draw2: int,
    s3: Seq<Body>,
    e3: u64,
)
    requires
        collision_outcome(s, e, draw, s2, e2),
        s2 != s,
        t < COOLDOWN_MS,
        collision_outcome(s2, t, draw2, s3, e3),
        e2 <= t,
    ensures
        e2 == 0,
        s3 == s2,
        e3 == t,
{
}

/// One call of the collision system resolves at most one collision: while
/// the cooldown runs it changes nothing; otherwise either nothing changes, or
/// exactly one paddle and one ball that overlapped gain `SPEED_INCREASE` each,
/// every other body is untouched, and the clock restarts from zero.
pub proof fn lemma_collision_resolves_at_most_once(
    s: Seq<Body>,
    e: u64,
    draw: int,
    s2: Seq<Body>,
    e2: u64,
)
    requires
        all_ok(s, MOVED_LIMIT as int),
        collision_outcome(s, e, draw, s2, e2),
    ensures
        e < COOLDOWN_MS ==> s2 == s && e2 == e,
        s2 == s || exists|p: int, q: int|
            {
                &&& hits(s, p, q)
                &&& e2 == 0
                &&& s2.len() == s.len()
                &&& s2[p].speed == s[p].speed + SPEED_INCREASE
                &&& s2[q].speed == s[q].speed + SPEED_INCREASE
                &&& forall|i: int| 0 <= i < s.len() && i != p && i != q ==> #[trigger] s2[i] == s[i]
            },
{
    if s2 != s {
        let (p, q) = choose|p: int, q: int| first_hit(s, p, q) && s2 == resolved(s, p, q, draw);
        assert(rect_ok(s[p].bounds, MOVED_LIMIT as int) && motion_ok(s[p]));
        assert(rect_ok(s[q].bounds, MOVED_LIMIT as int) && motion_ok(s[q]));
        assert(p != q);
    }
}

/// Scoring raises the sum of the two slots by exactly the number of balls
/// that left the field, each ball counting on one side only.
pub proof fn lemma_score_conservation(s: Seq<Body>, width: int, sc: (u64, u64), sc2: (u64, u64))
    requires
        sc2.0 == sc.0 + count_left(s),
        sc2.1 == sc.1 + count_right(s, width),
    ensures
        sc2.0 + sc2.1 == sc.0 + sc.1 + count_exits(s, width),
        forall|i: int| 0 <= i < s.len() ==> !(exits_left(#[trigger] s[i]) && exits_right(s[i], width)),
{
    lemma_exit_scores_once(s, width);
}

/// How many balls left the field over a run of frames, `mids[k]` being the
/// bodies that frame `k` scored from.
pub open spec fn exits_over(mids: Seq<Seq<Body>>, width: int) -> nat
    decreases mids.len(),
{
    if mids.len() == 0 {
        0
    } else {
        exits_over(mids.drop_last(), width) + count_exits(mids.last(), width)
    }
}

/// Over a run of frames, each scoring as `score_exits` does, the sum of the
/// two slots grows by exactly the number of balls that left, and neither
/// slot ever goes down.
pub proof fn lemma_score_conservation_over_frames(
    scores: Seq<(u64, u64)>,
    mids: Seq<Seq<Body>>,
    width: int,
)
    requires
        scores.len() == mids.len() + 1,
        forall|k: int|
            0 <= k < mids.len() ==> (#[trigger] scores[k + 1]).0 == scores[k].0 + count_left(mids[k])
                && scores[k + 1].1 == scores[k].1 + count_right(mids[k], width),
    ensures
        scores.last().0 + scores.last().1 == scores[0].0 + scores[0].1 + exits_over(mids, width),
        forall|k: int|
            0 <= k < mids.len() ==> (#[trigger] scores[k + 1]).0 >= scores[k].0 && scores[k + 1].1
                >= scores[k].1,
    decreases mids.len(),
{
    if mids.len() > 0 {
        let n = mids.len() - 1;
        let s2 = scores.drop_last();
        let m2 = mids.drop_last();
        assert forall|k: int| 0 <= k < m2.len() implies (#[trigger] s2[k + 1]).0 == s2[k].0 + count_left(m2[k])
            && s2[k + 1].1 == s2[k].1 + count_right(m2[k], width) by {
            assert(scores[k + 1] == s2[k + 1]);
        }
        lemma_score_conservation_over_frames(s2, m2, width);
        lemma_exit_scores_once(mids[n], width);
        assert(scores[n + 1] == scores.last());
        assert(s2.last() == scores[n]);
    }
}

/// After a reset every body stands on the rectangle it was spawned on, and
/// each paddle is back to the direction it was spawned with.
pub proof fn lemma_reset_is_home(s: Seq<Body>, f: Field, homes: Seq<(i64, i64)>, draw: (i64, i64))
    requires
        homes.len() == s.len(),
    ensures
        forall|i: int|
            0 <= i < s.len() ==> (#[trigger] reset_all(s, f, homes)[i]).bounds == home(s[i].role, f),
        forall|i: int|
            0 <= i < 3 ==> (#[trigger] spawned(f, draw)[i]).bounds == home(spawned(f, draw)[i].role, f),
        forall|i: int|
            0 <= i < s.len() && s[i].role is Paddle ==> (#[trigger] reset_all(s, f, homes)[i]).vel
                == spawned(f, draw)[0].vel,
        forall|i: int|
            0 <= i < s.len() && s[i].role is Ball ==> (#[trigger] reset_all(s, f, homes)[i]).vel
                == spawned(f, homes[i])[2].vel,
{
}

/// In a store holding exactly one ball (at `k`), scoring raises each slot by
/// at most one, never both, and raises one of them exactly when the ball left.
pub proof fn lemma_one_ball_scores_once(s: Seq<Body>, width: int, k: int)
    requires
        0 <= k < s.len(),
        s[k].role is Ball,
        forall|i: int| 0 <= i < s.len() && i != k ==> ((#[trigger] s[i]).role is Paddle),
    ensures
        count_left(s) == if exits_left(s[k]) { 1nat } else { 0nat },
        count_right(s, width) == if exits_right(s[k], width) { 1nat } else { 0nat },
        count_left(s) + count_right(s, width) <= 1,
        count_left(s) + count_right(s, width) == 1 <==> exits(s[k], width),
        last_scorer(s, width) == (if exits_left(s[k]) {
            Some(Player::One)
        } else if exits_right(s[k], width) {
            Some(Player::Two)
        } else {
            None
        }),
    decreases s.len(),
{
    if k < s.len() - 1 {
        let t = s.drop_last();
        assert forall|i: int| 0 <= i < t.len() && i != k implies (#[trigger] t[i]).role is Paddle by {
            assert(t[i] == s[i]);
        }
        lemma_one_ball_scores_once(t, width, k);
        assert(s.last().role is Paddle);
    } else {
        lemma_no_ball_no_score(s.drop_last(), width);
    }
}

proof fn lemma_no_ball_no_score(s: Seq<Body>, width: int)
    requires
        forall|i: int| 0 <= i < s.len() ==> ((#[trigger] s[i]).role is Paddle),
    ensures
        count_left(s) == 0,
        count_right(s, width) == 0,
        (last_scorer(s, width) is None),
    decreases s.len(),
{
    if s.len() > 0 {
        let t = s.drop_last();
        assert forall|i: int| 0 <= i < t.len() implies (#[trigger] t[i]).role is Paddle by {
            assert(t[i] == s[i]);
        }
        lemma_no_ball_no_score(t, width);
        assert(s.last().role is Paddle);
    }
}

} // verus!
