//! A two-team tile capture arena: two balls bounce inside a walled grid of tiles,
//! and each claims for its team the opposing tiles it strikes.
//!
//! Positions and extents are integers in world units; a velocity is in world units
//! per time unit, and a step advances by a whole number of time units.
pub mod arena;
pub mod geometry;
pub mod scoreboard;
pub mod team;
