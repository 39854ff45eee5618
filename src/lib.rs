//! A small feature-flag store: typed flag values, their text envelope, and
//! create / read / update / delete over one SQLite table.

pub mod error;
pub mod store;
pub mod value;
