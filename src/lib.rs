//! Point layouts for seeding many independent entities in a simulation.
//!
//! The heart of the crate is a lattice that grows outward one row or one
//! column at a time, steered toward a target aspect ratio, until exactly the
//! requested number of cells has been produced.

pub mod geom;
pub mod grid;
pub mod lattice;
pub mod laws;
pub mod ratio;
pub mod row_major;

pub use row_major::grid_iter;
pub use row_major::GridIter;
