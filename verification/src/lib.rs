//! An execution engine for Gaji, a two-dimensional language of two symbols.
//!
//! A program is a rectangular garden of fields. A single head walks over it,
//! planting open fields and harvesting planted ones; each harvest decodes a
//! command from the eight surrounding fields and executes it.

pub mod bits;
pub mod command;
pub mod direction;
pub mod field;
pub mod grid;
pub mod laws;
pub mod machine;
pub mod model;
pub mod text;

pub use bits::{BitReader, BitWriter};
pub use command::Command;
pub use direction::Direction;
pub use field::Field;
pub use grid::{Grid, GridError};
pub use machine::{Machine, Report};
