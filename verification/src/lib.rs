//! A permissive INI parser and serializer.
//!
//! Input text is split into physical lines; each line is classified as a
//! comment, a section header, or a key/value pair, and the value is run
//! through a pipeline of transformation rules (whitespace trimming, BOM
//! stripping, multiline continuation, quote-aware comment handling, inline
//! comment stripping) selected by an [`config::IniParserConfig`]. The
//! results are folded into a [`document::Document`], a nested map from
//! section names to key/value pairs. The serializer renders a document back
//! to INI text.

pub mod bridge;
pub mod classify;
pub mod config;
pub mod document;
pub mod laws;
pub mod parse;
pub mod ser;
pub mod text;
pub mod transform;

pub use config::IniParserConfig;
pub use document::Document;
pub use parse::parse_ini;
pub use parse::parse_ini_with_config;
