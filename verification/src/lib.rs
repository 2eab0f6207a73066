//! Serialization of postings lists into a term dictionary, a postings stream
//! and a positions stream.

pub mod bitpacking;
pub mod common;
pub mod compression;
pub mod layout;
pub mod reader;
pub mod schema;
pub mod serializer;
pub mod session;
pub mod termdict;
