//! Motion and combat core of a two-craft arcade space battle around a central
//! gravity well, in fixed-point integers: lengths in thousandths of a world unit,
//! angles in thousandths of a degree, frame times in milliseconds.
//!
//! - `geometry`: vectors, squared distances, integer square roots, speed limits.
//! - `gravity`: the inverse-square pull of the central body, with its cutoff.
//! - `craft`: crafts, their input and their integration over one frame.
//! - `collision`: craft/sun and craft/craft detection, explosions and removal.
//! - `bullet`: firing, flight, expiry and hits of projectiles.
//! - `simulation`: the per-frame step that runs all of the above in order.

use vstd::prelude::*;

pub mod geometry;
pub mod gravity;
pub mod craft;
pub mod collision;
pub mod bullet;
pub mod simulation;

verus! {

} // verus!
