//! Matching of a credential request against a catalog of credentials.
//!
//! A catalog comes as one buffer: a binary header, a table of icon sizes, a
//! JSON payload and the icons. [`container`] decodes the envelope, [`text`]
//! finds the JSON texts in the raw bytes, [`schema`] holds the request and
//! the catalog as their documents describe them, [`matcher`] picks the
//! entries that a request asks for, and [`export`] builds the record that
//! tells the host of each of them. [`wire`] reads the integers of the header,
//! and [`encoding`] says how a header is written.

pub mod container;
pub mod encoding;
pub mod export;
pub mod matcher;
pub mod schema;
pub mod text;
pub mod wire;
