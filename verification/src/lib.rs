//! Device tree source (DTS) parsing, modelling and writing for Zephyr
//! workspaces, together with the logic of the overlay generator.
pub mod model;
pub mod text;
pub mod grammar;
pub mod parser;
pub mod error;
pub mod serializer;
pub mod binding;
pub mod lines;
pub mod west;
pub mod workspace;
pub mod panel;
pub mod resolver;
pub mod generator;
pub mod round_trip;
pub mod node_round_trip;
pub mod tree_round_trip;
pub mod sorting;
pub mod file_tree;
pub mod viewer;
pub mod clipboard;
pub mod session;
pub mod highlight;

pub use error::{location_in, ParseError, ParseErrorKind};
pub use model::{
    Cell, DeviceTree, DtsVersion, Include, IncludeKind, MemoryReservation, Node, Property,
    PropertyValue, Reference, ReferenceNode, ValuePart,
};
pub use parser::{parse_dts, try_parse_dts};
pub use serializer::{format_property_value, serialize, OutputFormat, SerializerConfig};
