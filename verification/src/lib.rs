//! Verified DBF-to-CSV conversion.
//!
//! The library decodes the dBASE (DBF) table format — fixed binary header,
//! field-descriptor table, fixed-width record slots — normalizes each typed
//! field value to its canonical textual form, and renders the result as
//! semicolon-delimited, always-quoted CSV lines.  All text is handled as raw
//! bytes: DBF character data carries no declared encoding, and the output is
//! specified byte for byte.

pub mod convert;
pub mod emit;
pub mod header;
pub mod normalize;
pub mod records;
pub mod text;
pub mod types;
