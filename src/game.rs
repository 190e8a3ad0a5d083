//! The frame pipeline and the game-mode state machine.
use vstd::prelude::*;
use crate::body::{Body, Field, Player, POS_LIMIT, DT_LIMIT, spawned, spawn_bodies, rect_ok, motion_ok, SIZE_LIMIT, SPEED_LIMIT};
use crate::direction::{NORMALIZE_LIMIT, is_unit};
use crate::store::{world_bodies, new_world, spawn_body, get_body, set_body};
use crate::direction::VEL_SCALE;
use crate::systems::{
    PaddleKeys, all_ok, integrated, steered, confined, bounced, collision_outcome, last_scorer,
    count_left, count_right, reset_all, draws_ok, apply_velocity, steer_paddles, confine_paddles,
    bounce_balls, collide, score_exits, reset_bodies,
};

verus! {

/// The random numbers one frame may use: the vertical part of a ball's new
/// direction after a collision, and one direction per body for a reset.
pub struct Draws {
    pub rebound: i64,
    pub homes: Vec<(i64, i64)>,
}

impl Draws {
    pub open spec fn wf(&self, n: nat) -> bool {
        &&& -VEL_SCALE <= self.rebound <= VEL_SCALE
        &&& self.homes@.len() == n
        &&& draws_ok(self.homes@)
    }
}

/// The bodies after motion, steering, confinement and bounce.
pub open spec fn moved(s: Seq<Body>, f: Field, k: PaddleKeys, dt: int) -> Seq<Body> {
    s.map_values(|b: Body| integrated(b, dt)).map_values(|b: Body| steered(b, k)).map_values(
        |b: Body| confined(b, f.height as int),
    ).map_values(|b: Body| bounced(b, f.height as int))
}

/// Scoring applied to `s`: the score `sc` becomes `sc2`, the bodies `s2`, and
/// `r` is the player credited last, if any ball left.
pub open spec fn scoring_outcome(
    s: Seq<Body>,
    f: Field,
    homes: Seq<(i64, i64)>,
    sc: (u64, u64),
    s2: Seq<Body>,
    sc2: (u64, u64),
    r: Option<Player>,
) -> bool {
    &&& r == last_scorer(s, f.width as int)
    &&& sc2.0 == sc.0 + count_left(s)
    &&& sc2.1 == sc.1 + count_right(s, f.width as int)
    &&& r is None ==> s2 == s
    &&& r is Some ==> s2 == reset_all(s, f, homes)
}

/// Runs the six systems over `bodies` for one frame of `dt` milliseconds, in
/// order: motion, steering, confinement, bounce, collision, scoring.
/// Returns the player credited for a ball that left the field, if any.
pub fn play_frame(
    bodies: &mut Vec<Body>,
    f: &Field,
    keys: PaddleKeys,
    dt: i64,
    elapsed: &mut u64,
    score: &mut (u64, u64),
    draws: &Draws,
) -> (r: Option<Player>)
    requires
        f.wf(),
        all_ok(old(bodies)@, POS_LIMIT as int),
        0 <= dt <= DT_LIMIT,
        draws.wf(old(bodies)@.len()),
        old(score).0 + old(bodies)@.len() <= u64::MAX,
        old(score).1 + old(bodies)@.len() <= u64::MAX,
    ensures
        final(bodies)@.len() == old(bodies)@.len(),
        exists|mid: Seq<Body>|
            collision_outcome(
                moved(old(bodies)@, *f, keys, dt as int),
                *old(elapsed),
                draws.rebound as int,
                mid,
                *final(elapsed),
            ) && scoring_outcome(mid, *f, draws.homes@, *old(score), final(bodies)@, *final(score), r),
{
    let ghost s0 = bodies@;
    apply_velocity(bodies, dt);
    assert(bodies@ =~= s0.map_values(|b: Body| integrated(b, dt as int)));
    steer_paddles(bodies, keys);
    confine_paddles(bodies, f);
    bounce_balls(bodies, f);
    let ghost s4 = bodies@;
    assert(s4 == moved(s0, *f, keys, dt as int));
    collide(bodies, elapsed, draws.rebound);
    let ghost mid = bodies@;
    let ghost sc = *score;
    let r = score_exits(bodies, f, score, &draws.homes);
    assert(scoring_outcome(mid, *f, draws.homes@, sc, bodies@, *score, r));
    assert(sc == *old(score));
    assert(collision_outcome(s4, *old(elapsed), draws.rebound as int, mid, *elapsed));
    r
}

/// The modes of a game.
#[derive(Clone, Copy, Debug, PartialEq, Eq, Structural)]
pub enum Mode {
    Paused,
    Playing,
    Scored(Player),
}

/// What the players asked for this frame: held movement keys, and the
/// start/continue, escape and reset keys pressed this frame.
#[derive(Clone, Copy, Debug, PartialEq, Eq, Structural)]
pub struct Controls {
    pub paddles: PaddleKeys,
    pub start: bool,
    pub escape: bool,
    pub reset: bool,
}

/// The mode after one frame in mode `m`, where `scorer` is what the scoring
/// system reported (it runs only while playing). Paused starts on start;
/// playing pauses on escape, else moves to scored when a ball left; scored
/// goes back to paused on reset, else resumes on start. All else stays.
pub open spec fn next_mode(m: Mode, c: Controls, scorer: Option<Player>) -> Mode {
    match m {
        Mode::Paused => if c.start { Mode::Playing } else { Mode::Paused },
        Mode::Playing => if c.escape {
            Mode::Paused
        } else {
            match scorer {
                Some(p) => Mode::Scored(p),
                None => Mode::Playing,
            }
        },
        Mode::Scored(p) => if c.reset {
            Mode::Paused
        } else if c.start {
            Mode::Playing
        } else {
            Mode::Scored(p)
        },
    }
}

/// The mode after one frame; see `next_mode`.
pub fn transition(m: Mode, c: &Controls, scorer: Option<Player>) -> (r: Mode)
    ensures
        r == next_mode(m, *c, scorer),
{
    match m {
        Mode::Paused => if c.start { Mode::Playing } else { Mode::Paused },
        Mode::Playing => if c.escape {
            Mode::Paused
        } else {
            match scorer {
                Some(p) => Mode::Scored(p),
                None => Mode::Playing,
            }
        },
        Mode::Scored(p) => if c.reset {
            Mode::Paused
        } else if c.start {
            Mode::Playing
        } else {
            Mode::Scored(p)
        },
    }
}

/// A running game: the field, the bodies held in an entity store, the mode,
/// the score pair and the time since the last resolved collision.
pub struct Game {
    pub field: Field,
    pub world: hecs::World,
    /// Handles of the bodies in the store, in the order the systems visit them.
    pub ids: Vec<u64>,
    pub mode: Mode,
    pub score: (u64, u64),
    /// Milliseconds since the last resolved collision.
    pub elapsed: u64,
}

impl Game {
    pub open spec fn wf(&self) -> bool {
        &&& self.field.wf()
        &&& self.ids@.no_duplicates()
        &&& forall|i: int|
            0 <= i < self.ids@.len() ==> world_bodies(self.world).contains_key(#[trigger] self.ids@[i])
    }

    /// The bodies of the game, in visiting order.
    pub open spec fn view_bodies(&self) -> Seq<Body> {
        self.ids@.map_values(|id: u64| world_bodies(self.world)[id])
    }

    /// Positions, directions and speeds within the limits a frame starts
    /// from, and room left in the counters for one more frame.
    pub open spec fn fits(&self) -> bool {
        &&& all_ok(self.view_bodies(), POS_LIMIT as int)
        &&& self.score.0 + self.ids@.len() <= u64::MAX
        &&& self.score.1 + self.ids@.len() <= u64::MAX
        &&& self.elapsed + DT_LIMIT <= u64::MAX
    }

    /// A new game, paused, with score zero: the two paddles and the ball on
    /// their home rectangles, the ball heading along `draw`.
    pub fn new(field: Field, draw: (i64, i64)) -> (g: Game)
        requires
            field.wf(),
            -VEL_SCALE <= draw.0 <= VEL_SCALE,
            -VEL_SCALE <= draw.1 <= VEL_SCALE,
        ensures
            g.wf(),
            g.field == field,
            g.view_bodies() == spawned(field, draw),
            is_unit(g.view_bodies()[2].vel),
            g.mode == Mode::Paused,
            g.score == (0u64, 0u64),
            g.elapsed == 0,
    {
        let bodies = spawn_bodies(&field, draw);
        let mut world = new_world();
        let mut ids: Vec<u64> = Vec::new();
        let mut i: usize = 0;
        while i < bodies.len()
            invariant
                0 <= i <= bodies@.len(),
                ids@.len() == i,
                ids@.no_duplicates(),
                forall|k: u64| #[trigger] world_bodies(world).contains_key(k) <==> ids@.contains(k),
                forall|j: int| 0 <= j < i ==> world_bodies(world)[#[trigger] ids@[j]] == bodies@[j],
            decreases bodies@.len() - i,
        {
            let ghost before = ids@;
            let ghost wb = world_bodies(world);
            let id = spawn_body(&mut world, bodies[i]);
            assert(!before.contains(id)) by {
                if before.contains(id) {
                    assert(before.to_set().contains(id));
                }
            }
            ids.push(id);
            assert(ids@ == before.push(id));
            assert forall|k: u64| ids@.contains(k) <==> (before.contains(k) || k == id) by {
                if before.contains(k) {
                    let j = choose|j: int| 0 <= j < before.len() && before[j] == k;
                    assert(ids@[j] == k);
                }
                if ids@.contains(k) && k != id {
                    let j = choose|j: int| 0 <= j < ids@.len() && ids@[j] == k;
                    assert(before[j] == k);
                }
                if k == id {
                    assert(ids@[before.len() as int] == k);
                }
            }
            assert forall|k: u64| world_bodies(world).contains_key(k) <==> ids@.contains(k) by {
                assert(world_bodies(world).contains_key(k) <==> (wb.contains_key(k) || k == id));
                assert(wb.contains_key(k) <==> before.contains(k));
                assert(ids@.contains(k) <==> (before.contains(k) || k == id));
            }
            i += 1;
        }
        let g = Game { field, world, ids, mode: Mode::Paused, score: (0, 0), elapsed: 0 };
        assert forall|j: int| 0 <= j < g.ids@.len() implies world_bodies(g.world).contains_key(#[trigger] g.ids@[j]) by {
            assert(g.ids@.contains(g.ids@[j]));
        }
        assert(g.view_bodies() =~= spawned(field, draw));
        g
    }

    /// The bodies, in visiting order.
    pub fn bodies(&self) -> (r: Vec<Body>)
        requires
            self.wf(),
        ensures
            r@ == self.view_bodies(),
    {
        let mut r: Vec<Body> = Vec::new();
        let mut i: usize = 0;
        while i < self.ids.len()
            invariant
                self.wf(),
                0 <= i <= self.ids@.len(),
                r@ == self.view_bodies().take(i as int),
            decreases self.ids@.len() - i,
        {
            let b = get_body(&self.world, self.ids[i]);
            match b {
                Some(b) => {
                    r.push(b);
                },
                None => {
                    assert(world_bodies(self.world).contains_key(self.ids@[i as int]));
                },
            }
            assert(r@ =~= self.view_bodies().take(i as int + 1));
            i += 1;
        }
        assert(r@ =~= self.view_bodies());
        r
    }

    /// Writes `bodies` back into the store, one per handle.
    fn store(&mut self, bodies: &Vec<Body>)
        requires
            old(self).wf(),
            bodies@.len() == old(self).ids@.len(),
        ensures
            final(self).wf(),
            final(self).view_bodies() == bodies@,
            final(self).field == old(self).field,
            final(self).ids == old(self).ids,
            final(self).mode == old(self).mode,
            final(self).score == old(self).score,
            final(self).elapsed == old(self).elapsed,
    {
        let mut i: usize = 0;
        while i < self.ids.len()
            invariant
                self.wf(),
                bodies@.len() == self.ids@.len(),
                self.field == old(self).field,
                self.ids == old(self).ids,
                self.mode == old(self).mode,
                self.score == old(self).score,
                self.elapsed == old(self).elapsed,
                0 <= i <= self.ids@.len(),
                forall|j: int| 0 <= j < i ==> world_bodies(self.world)[#[trigger] self.ids@[j]] == bodies@[j],
            decreases self.ids@.len() - i,
        {
            let id = self.ids[i];
            let ghost before = world_bodies(self.world);
            set_body(&mut self.world, id, bodies[i]);
            assert forall|j: int| 0 <= j < self.ids@.len() implies world_bodies(self.world).contains_key(#[trigger] self.ids@[j]) by {
                assert(before.contains_key(self.ids@[j]));
            }
            assert forall|j: int| 0 <= j < i + 1 implies world_bodies(self.world)[#[trigger] self.ids@[j]] == bodies@[j] by {
                if j < i {
                    assert(self.ids@[j] != self.ids@[i as int]);
                }
            }
            i += 1;
        }
        assert(self.view_bodies() =~= bodies@);
    }

    /// Whether the next frame is within the machine limits (`fits`).
    pub fn within_limits(&self) -> (r: bool)
        requires
            self.wf(),
        ensures
            r == self.fits(),
    {
        let bodies = self.bodies();
        let n = bodies.len();
        let mut i: usize = 0;
        while i < n
            invariant
                n == bodies@.len(),
                bodies@ == self.view_bodies(),
                0 <= i <= n,
                forall|j: int| 0 <= j < i ==> rect_ok(#[trigger] bodies@[j].bounds, POS_LIMIT as int) && motion_ok(bodies@[j]),
            decreases n - i,
        {
            let b = bodies[i];
            let ok = -POS_LIMIT <= b.bounds.x && b.bounds.x <= POS_LIMIT
                && -POS_LIMIT <= b.bounds.y && b.bounds.y <= POS_LIMIT
                && 0 <= b.bounds.w && b.bounds.w <= SIZE_LIMIT
                && 0 <= b.bounds.h && b.bounds.h <= SIZE_LIMIT
                && -NORMALIZE_LIMIT <= b.vel.x && b.vel.x <= NORMALIZE_LIMIT
                && -NORMALIZE_LIMIT <= b.vel.y && b.vel.y <= NORMALIZE_LIMIT
                && 0 <= b.speed && b.speed <= SPEED_LIMIT;
            if !ok {
                assert(!(rect_ok(bodies@[i as int].bounds, POS_LIMIT as int) && motion_ok(bodies@[i as int])));
                return false;
            }
            assert(rect_ok(bodies@[i as int].bounds, POS_LIMIT as int) && motion_ok(bodies@[i as int]));
            assert forall|j: int| 0 <= j < i + 1 implies rect_ok(#[trigger] bodies@[j].bounds, POS_LIMIT as int) && motion_ok(bodies@[j]) by {
                if j < i {
                    assert(rect_ok(bodies@[j].bounds, POS_LIMIT as int) && motion_ok(bodies@[j]));
                }
            }
            i += 1;
        }
        let len = n as u64;
        self.score.0 <= u64::MAX - len && self.score.1 <= u64::MAX - len && self.elapsed
            <= u64::MAX - (DT_LIMIT as u64)
    }

    /// Advances the game by one frame of `dt` milliseconds. The collision
    /// clock runs in every mode; the systems run only while playing; a reset
    /// from the scored mode puts every body home and clears the score. The
    /// limits of `fits` and `DT_LIMIT` matter only while playing, and the
    /// random numbers only where the systems run or a reset happens.
    pub fn frame(&mut self, c: &Controls, dt: i64, draws: &Draws)
        requires
            old(self).wf(),
            0 <= dt,
            old(self).elapsed + dt <= u64::MAX,
            old(self).mode is Playing ==> old(self).fits() && dt <= DT_LIMIT,
            old(self).mode is Paused || draws.wf(old(self).ids@.len()),
        ensures
            final(self).wf(),
            final(self).field == old(self).field,
            final(self).ids == old(self).ids,
            old(self).mode is Paused ==> {
                &&& final(self).view_bodies() == old(self).view_bodies()
                &&& final(self).score == old(self).score
                &&& final(self).elapsed == old(self).elapsed + dt
                &&& final(self).mode == next_mode(old(self).mode, *c, None)
            },
            old(self).mode is Playing ==> exists|mid: Seq<Body>, r: Option<Player>|
                {
                    &&& collision_outcome(
                        moved(old(self).view_bodies(), old(self).field, c.paddles, dt as int),
                        (old(self).elapsed + dt) as u64,
                        draws.rebound as int,
                        mid,
                        final(self).elapsed,
                    )
                    &&& scoring_outcome(
                        mid,
                        old(self).field,
                        draws.homes@,
                        old(self).score,
                        final(self).view_bodies(),
                        final(self).score,
                        r,
                    )
                    &&& final(self).mode == next_mode(old(self).mode, *c, r)
                },
            old(self).mode is Scored ==> {
                &&& final(self).elapsed == old(self).elapsed + dt
                &&& final(self).mode == next_mode(old(self).mode, *c, None)
                &&& if c.reset {
                    &&& final(self).view_bodies() == reset_all(old(self).view_bodies(), old(self).field, draws.homes@)
                    &&& final(self).score == (0u64, 0u64)
                } else {
                    &&& final(self).view_bodies() == old(self).view_bodies()
                    &&& final(self).score == old(self).score
                }
            },
    {
        self.elapsed = self.elapsed + dt as u64;
        match self.mode {
            Mode::Paused => {
                self.mode = transition(self.mode, c, None);
            },
            Mode::Playing => {
                let mut bodies = self.bodies();
                let ghost s0 = bodies@;
                let mut elapsed = self.elapsed;
                let ghost e0 = elapsed;
                let mut score = self.score;
                let r = play_frame(&mut bodies, &self.field, c.paddles, dt, &mut elapsed, &mut score, draws);
                let ghost mid = choose|mid: Seq<Body>|
                    collision_outcome(
                        moved(s0, self.field, c.paddles, dt as int),
                        e0,
                        draws.rebound as int,
                        mid,
                        elapsed,
                    ) && scoring_outcome(mid, self.field, draws.homes@, old(self).score, bodies@, score, r);
                self.store(&bodies);
                self.elapsed = elapsed;
                self.score = score;
                self.mode = transition(self.mode, c, r);
                assert(collision_outcome(
                    moved(old(self).view_bodies(), old(self).field, c.paddles, dt as int),
                    (old(self).elapsed + dt) as u64,
                    draws.rebound as int,
                    mid,
                    self.elapsed,
                ));
                assert(scoring_outcome(
                    mid,
                    old(self).field,
                    draws.homes@,
                    old(self).score,
                    self.view_bodies(),
                    self.score,
                    r,
                ));
            },
            Mode::Scored(_) => {
                if c.reset {
                    let mut bodies = self.bodies();
                    reset_bodies(&mut bodies, &self.field, &draws.homes);
                    self.store(&bodies);
                    self.score = (0, 0);
                }
                self.mode = transition(self.mode, c, None);
            },
        }
    }
}

} // verus!
