//! An N x N x N Rubik's-style cube: six faces of N x N colored facelets,
//! layer rotations at arbitrary depth, and a checkerboard pattern built
//! from those rotations. The rotation engine is specified by a pointwise
//! permutation of facelets and verified against it.

pub mod cube;
pub mod geometry;
pub mod laws;
pub mod pattern;
pub mod rotation;
