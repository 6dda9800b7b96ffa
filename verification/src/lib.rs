//! A JSON parser that, alongside the value tree, records for every node —
//! addressed by its RFC 6901 JSON Pointer — the exact source location (line,
//! column, character position) of its key and its value.

mod ext;
pub mod laws;
pub mod model;
pub mod parser;
pub mod table;
pub mod text;
pub mod types;

pub use parser::{parse, ParseResult};
pub use table::PointerTable;
pub use types::{Error, JsonValue, Location, LocationMap, Options, Prop, SpecValue};
