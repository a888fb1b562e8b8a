//! Device tree blob decoding with machine-checked contracts.
//!
//! The crate decodes the flattened device tree format: the fixed header, the
//! memory reservation list, the structure block with its strings block, and
//! the address translation rules that `ranges` properties describe. Every
//! function is specified over plain mathematical values (byte sequences and
//! the tree models built from them) and proved against that specification.

pub mod address;
pub mod builder;
pub mod bytes;
pub mod discover;
pub mod encode;
pub mod error;
pub mod header;
pub mod identifier;
pub mod memory;
pub mod node;
pub mod parser;
pub mod search;
pub mod tokens;
pub mod translate;
pub mod value;

pub use address::{parse_address_from_bytes, AddressRange, AddressSpec};
pub use error::DtbError;
pub use header::DtbHeader;
pub use memory::MemoryReservation;
pub use node::{DeviceTreeNode, Property};
pub use parser::DeviceTreeParser;
pub use search::NodeIterator;
pub use tokens::DtbToken;
pub use value::PropertyValue;
