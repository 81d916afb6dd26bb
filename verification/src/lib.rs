//! Reading and writing DBPF package archives.
//!
//! - [`dbpf`] is the archive engine: the header, the index with its mask and
//!   template, chunk handles and their readers, and the archive itself.
//! - [`dbpf::filetypes`] knows the resource types, the name map and the
//!   counts of geometry.
//! - [`dbpf::query`] answers what the tools ask of an archive.
//! - [`refpack`] decodes the RefPack compression of chunks.
//! - [`util`] holds the little-endian numbers and the length-prefixed
//!   strings that the formats are made of.
//!
//! Every function states what it computes over byte sequences, and is
//! verified against that statement.

pub mod dbpf;
pub mod error;
pub mod refpack;
pub mod util;
