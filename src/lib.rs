//! A two-player Pong simulation core over integer fixed-point geometry.
//!
//! Lengths are measured in micro-pixels, directions in thousandths (a unit
//! direction has length `VEL_SCALE`), speeds in pixels per second and time in
//! milliseconds, so that one step of motion `velocity * speed * dt` lands
//! exactly on the micro-pixel grid.
//!
//! Each frame runs six systems in order over the bodies of an entity store:
//! motion, paddle steering, paddle confinement, ball bounce, paddle-ball
//! collision and scoring. A mode machine (paused, playing, scored) decides
//! when they run. Conventions: a ball out on the left is credited to the first
//! score slot and player one, out on the right to the second slot and player
//! two; a ball bounces once it reaches or passes the top or the bottom; paddles
//! are held within the field's height.
pub mod direction;
pub mod body;
pub mod systems;
pub mod game;
pub mod store;
pub mod random;
