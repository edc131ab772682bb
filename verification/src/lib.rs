//! A two-state cellular automaton on a 3×3 neighborhood: a sparse grid of
//! live cells, the encoding of a cell's neighborhood as a code from 0 to
//! 511, a rule table indexed by that code and written down as a short
//! base-64 text, and a world that steps a bounded grid from one generation
//! to the next.

pub mod bits;
pub mod canvas;
mod chance;
pub mod code;
pub mod grid;
pub mod neighborhood;
pub mod rule;
pub mod world;

pub use code::{CodeError, B64};
pub use grid::{Cell, Grid};
pub use neighborhood::get_state;
pub use rule::Rule;
pub use world::World;
