//! An in-memory table of text rows with a secondary index on one column.
//!
//! A `Table` answers equality lookups by a full scan; an `Index` built from it
//! maps each distinct value of one column to the ascending positions of the
//! rows that hold it, and answers the same lookups without a scan.
pub mod index;
pub mod position_map;
pub mod table;

pub use crate::index::Index;
pub use crate::position_map::PositionMap;
pub use crate::table::{Column, Table, TableError};
