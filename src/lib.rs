//! Memory-map listings of a process: a parser from the listing's text to
//! region records, and containment queries over the records.

pub mod parse;
pub mod query;
pub mod region;
pub mod text;

pub use parse::{parse_proc_maps, ParseError};
pub use query::{map_containing_addr, maps_contain_addr, maps_contain_addr_range};
pub use region::{MapRange, MapRangeImpl};
