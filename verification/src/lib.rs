//! A codec and canonical data model for the Concise Binary Object
//! Representation (CBOR, RFC 8949).
//!
//! A [`DataItem`] is built from plain values or decoded from bytes, encoded
//! back to bytes, and brought into one of two deterministic forms.
//!
//! Every contract is stated over three things: the mathematical model of an
//! item in [`model`], the encoding as a function from items to bytes in
//! [`encode`], and the wire format as a function from bytes to items in
//! [`grammar`]. What holds between them is proved in [`round_trip`],
//! [`well_formed`], [`reach`] and [`canonical_form`].
//!
//! Floating-point numbers are held as the bit patterns of their binary64
//! form; [`float`] widens and narrows such patterns by integer arithmetic.
pub mod access;
pub mod canonical_form;
pub mod content;
pub mod convert;
pub mod data_item;
pub mod decode;
pub mod deterministic;
pub mod diagnostic;
pub mod encode;
pub mod entry_map;
pub mod error;
pub mod float;
pub mod grammar;
pub mod index;
pub mod model;
pub mod reach;
pub mod round_trip;
mod sealed;
pub mod text;
pub mod well_formed;

pub use content::{ArrayContent, ByteContent, MapContent, SimpleValue, TagContent, TextContent};
pub use data_item::DataItem;
pub use deterministic::DeterministicMode;
pub use error::Error;
pub use index::Get;
