//! Converts a semicolon-delimited spare-parts catalogue into the XML
//! document that the downstream import expects.

pub mod catalog;
pub mod cdata;
pub mod column;
pub mod convert;
pub mod empty_tags;
pub mod encoding;
pub mod error;
pub mod escape;
pub mod header;
pub mod id;
pub mod indent;
pub mod input_path;
pub mod line_ending;
pub mod pair;
pub mod product;
pub mod records;
pub mod replace;
pub mod restoring;
pub mod serialize;
pub mod text;
pub mod xml_reader;
