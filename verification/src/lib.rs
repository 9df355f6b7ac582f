//! Enumeration of last-layer algorithms for the 3x3 cube, in order of
//! increasing length, each emitted once in its best-scoring y-rotation.

pub mod algorithm;
pub mod algorithm_iterator;
pub mod corner_orientation;
pub mod corner_permutation;
pub mod cubestate;
pub mod edge_orientation;
pub mod edge_permutation;
pub mod f2l_cubestate;
pub mod generator;
pub mod lla_error;
pub mod prunable;
pub mod tables;
pub mod text;
