//! Coverage geometry on an integer grid.
//!
//! The crate prepares anti-aliased fill and stroke geometry for a 2D
//! renderer. Path events become contours ([`flat`]); contours are dashed
//! ([`dashed`]), offset, united and cut ([`solver`], [`clip`]); and the
//! regions that result are given a triangle mesh whose per-vertex coverage of
//! 0 or 1 makes a one-pixel ramp along every boundary ([`coverage_aa`]).
//!
//! Every coordinate is a 32-bit integer that counts grid steps, a hundred to
//! the path unit ([`point`]). Inside the crate all arithmetic is exact:
//! lengths are square roots rounded down, points along a segment are rounded
//! toward its start, and a coordinate that would leave the grid stops at
//! its edge. The caller converts at the boundary.
//!
//! Two things are not this crate's own. Polygon offsetting and boolean
//! operations are done by Clipper2, which is reached through the trusted
//! functions in [`solver`]; contracts speak of its results by name only. And
//! the point where the two pushed-out edges of a mesh corner meet is asked
//! of the caller, who has the fractions that it takes: the mesh builder is
//! verified for whatever point comes back, and holds it to the miter limit.

pub mod clip;
pub mod coverage_aa;
pub mod dashed;
pub mod flat;
pub mod point;
pub mod solver;
