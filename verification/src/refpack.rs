//! RefPack (also known as QFS), the LZ77-family compression of archive chunks.

pub mod decompress;
pub mod encoding;
