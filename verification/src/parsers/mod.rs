//! Parsers for the job definition formats.

pub mod poml;


pub use poml::PomlParser;
