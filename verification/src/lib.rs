//! A 3x3x3 Rubik's cube solver built on Thistlethwaite's four-stage
//! group-reduction algorithm.
//!
//! The cube model tracks the permutation and orientation of the twelve edge
//! cubies and eight corner cubies under the eighteen face turns.  Each stage
//! maps the cube to a dense coordinate that is constant on cosets of the
//! stage's target subgroup; a distance table over that coordinate space then
//! drives a greedy descent that solves the cube stage by stage.

pub mod combinatorics;
pub mod cube;
pub mod lookup_table;
pub mod solver;
pub mod stages;
