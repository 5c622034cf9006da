//! Decoding of markup events into typed values.
//!
//! The crate turns a forward-only stream of markup events (element start,
//! element end, text, character data, end of input) into scalars, options,
//! sequences, structs and enums.  The [`de::Deserializer`] owns a cursor with
//! one event of lookahead and, when lists may overlap with other elements, a
//! bounded buffer of skipped events that are replayed later in document order.
//!
//! The events come from a [`de::XmlRead`]: [`de::SliceReader`] borrows them
//! from a slice of bytes, [`de::IoReader`] copies them out of bytes that it
//! owns.  Both read with the tokenizer of [`reader`].
pub mod attributes;
pub mod bytes;
pub mod de;
pub mod decoder;
pub mod digits;
pub mod errors;
pub mod escape;
pub mod events;
pub mod name;
pub mod reader;
pub mod scan;
