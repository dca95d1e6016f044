//! Register-access code generation from a hardware description.
//!
//! The description model is resolved (derivation merged, defaults settled),
//! the fields of each register are laid out, names become identifiers, and
//! the emitter writes one code unit for each register block, register and
//! set of named values. Beside generation stands the peripheral browser:
//! searching the description and listing what was found.

pub mod text;
pub mod model;
pub mod listing;
pub mod search;
pub mod layout;
pub mod chain;
pub mod derive;
pub mod resolve;
pub mod select;
pub mod ident;
pub mod keywords;
pub mod variants;
pub mod emit;
pub mod report;
pub mod generate;
pub mod browse;
pub mod highlight;
pub mod list;

pub use generate::gen_peripheral;
pub use list::{create_regex, list_peripheral, match_peripheral};
