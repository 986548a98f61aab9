//! Conversion between the binary save format of Bad North (a .NET binary
//! object graph) and a JSON document model, with the record graph in between.

pub mod bytes;
pub mod json;
pub mod layout_laws;
pub mod model;
pub mod output_paths;
pub mod parser;
pub mod records;
pub mod serializer;
pub mod text;
