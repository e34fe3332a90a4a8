//! A small voxel grid and the rules that animate it: the grid builder that
//! lays out one cube per lattice point, and the flicker rule that decides,
//! from a cube's phase, whether it is drawn this frame.

pub mod grid;
pub mod flicker;
