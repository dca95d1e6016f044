//! The browser's entry points in one place: searching and listing.

pub use crate::listing::{list_peripheral, OutputSettings};
pub use crate::search::{create_regex, match_peripheral, SearchSettings};
