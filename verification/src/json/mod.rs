//! The JSON form of a record graph: a document model, and the conversions
//! between it and the record graph.
pub mod value;
pub mod decoder;
pub mod encoder;
pub mod roundtrip;
