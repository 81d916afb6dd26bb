//! The archive engine: chunk handles, the readers behind them, and the
//! archive itself.
//!
//! An archive is parsed from a buffer that holds the whole file. Parsing
//! reads the header and the index and nothing else: the bytes of a chunk are
//! looked at, and decompressed, only when its handle is asked for a reader.

pub mod filetypes;
pub mod header;
pub mod index;
pub mod laws;
mod private;
pub mod query;
pub mod round_trip;

use crate::dbpf::filetypes::nmap::gather_names_of;
use crate::dbpf::filetypes::nmap::gathered;
use crate::dbpf::filetypes::nmap::names_chars;
use crate::dbpf::header::parsed_header;
use crate::dbpf::header::DBPFHeader;
use crate::dbpf::header::HEADER_SIZE;
use crate::dbpf::index::agree;
use crate::dbpf::index::common_template;
use crate::dbpf::index::index_bytes;
use crate::dbpf::index::index_size;
use crate::dbpf::index::lemma_index_size_bounds;
use crate::dbpf::index::parsed_index;
use crate::dbpf::index::read_index;
use crate::dbpf::index::template_mask;
use crate::dbpf::index::write_index;
use crate::dbpf::index::IndexEntry;
use crate::dbpf::index::IndexFilesize;
use crate::dbpf::index::PartialIndexEntry;
use crate::error::Error;
use crate::refpack::decompress::decoded;
use crate::refpack::decompress::decompress;
use core::marker::PhantomData;
use std::collections::BTreeMap;
use vstd::prelude::*;
use vstd::slice::slice_subrange;
use vstd::slice::slice_to_vec;

verus! {

/// A position to seek to, counted from the start of a stream, from its end,
/// or from where the stream stands.
#[derive(Debug, Clone, Copy, PartialEq, Eq, Structural)]
pub enum SeekFrom {
    Start(u64),
    End(i64),
    Current(i64),
}

/// Where a seek leads in a stream of `len` bytes that stands at `position`,
/// or `None` where that would be before the start or beyond the largest
/// position.
pub open spec fn seek_target(len: nat, position: u64, to: SeekFrom) -> Option<u64> {
    let target: int = match to {
        SeekFrom::Start(n) => n as int,
        SeekFrom::End(d) => len + d,
        SeekFrom::Current(d) => position + d,
    };
    if 0 <= target <= u64::MAX {
        Some(target as u64)
    } else {
        None
    }
}

/// The bytes of `stream` from `position` on; none where the position is at
/// or behind the end.
pub open spec fn remaining(stream: Seq<u8>, position: u64) -> Seq<u8> {
    if position <= stream.len() {
        stream.skip(position as int)
    } else {
        Seq::empty()
    }
}

/// A stream of bytes that can be read and repositioned. Positions are
/// relative to the start of the stream.
pub trait ReadSeek {
    /// All the bytes of the stream, from its start.
    spec fn stream(&self) -> Seq<u8>;

    /// The place of the next byte to be read.
    spec fn position(&self) -> u64;

    /// Reads at most `max` bytes and moves the position behind them.
    fn read(&mut self, max: usize) -> (r: Vec<u8>)
        ensures
            final(self).stream() == old(self).stream(),
            r@ == remaining(old(self).stream(), old(self).position()).take(
                if max <= remaining(old(self).stream(), old(self).position()).len() {
                    max as int
                } else {
                    remaining(old(self).stream(), old(self).position()).len() as int
                },
            ),
            final(self).position() == old(self).position() + r@.len(),
    ;

    /// Reads all the bytes that are left and moves the position behind them.
    fn read_to_end(&mut self) -> (r: Vec<u8>)
        ensures
            final(self).stream() == old(self).stream(),
            r@ == remaining(old(self).stream(), old(self).position()),
            final(self).position() == old(self).position() + r@.len(),
    ;

    /// Moves the position and returns it. Fails with `InvalidSeek`, leaving
    /// the position alone, where the target is negative or too large.
    fn seek(&mut self, to: SeekFrom) -> (r: Result<u64, Error>)
        ensures
            final(self).stream() == old(self).stream(),
            match seek_target(old(self).stream().len(), old(self).position(), to) {
                Some(p) => r == Ok::<u64, Error>(p) && final(self).position() == p,
                None => r == Err::<u64, Error>(Error::InvalidSeek) && final(self).position() == old(
                    self,
                ).position(),
            },
    ;
}

/// The bytes behind a chunk reader: borrowed from the archive or its source,
/// or owned where they had to be decompressed first.
#[derive(Debug)]
pub enum ChunkBytes<'a> {
    Borrowed(&'a [u8]),
    Owned(Vec<u8>),
}

impl<'a> View for ChunkBytes<'a> {
    type V = Seq<u8>;

    open spec fn view(&self) -> Seq<u8> {
        match self {
            ChunkBytes::Borrowed(s) => s@,
            ChunkBytes::Owned(v) => v@,
        }
    }
}

impl<'a> ChunkBytes<'a> {
    /// The bytes as a slice.
    pub fn as_slice(&self) -> (r: &[u8])
        ensures
            r@ == self@,
    {
        match self {
            ChunkBytes::Borrowed(s) => s,
            ChunkBytes::Owned(v) => v.as_slice(),
        }
    }
}

/// A cursor over the decompressed bytes of one chunk.
#[derive(Debug)]
pub struct ChunkReader<'a> {
    pub bytes: ChunkBytes<'a>,
    pub pos: u64,
}

impl<'a> ReadSeek for ChunkReader<'a> {
    open spec fn stream(&self) -> Seq<u8> {
        self.bytes@
    }

    open spec fn position(&self) -> u64 {
        self.pos
    }

    fn read(&mut self, max: usize) -> (r: Vec<u8>) {
        let all = self.bytes.as_slice();
        let len = all.len();
        if self.pos > len as u64 {
            return Vec::new();
        }
        let start: usize = self.pos as usize;
        let count: usize = if max <= len - start {
            max
        } else {
            len - start
        };
        let r = slice_to_vec(slice_subrange(all, start, start + count));
        assert(r@ =~= all@.skip(start as int).take(count as int));
        self.pos = self.pos + count as u64;
        r
    }

    fn read_to_end(&mut self) -> (r: Vec<u8>) {
        let all = self.bytes.as_slice();
        let len = all.len();
        if self.pos > len as u64 {
            return Vec::new();
        }
        let start: usize = self.pos as usize;
        let r = slice_to_vec(slice_subrange(all, start, len));
        assert(r@ =~= all@.skip(start as int));
        self.pos = len as u64;
        r
    }

    fn seek(&mut self, to: SeekFrom) -> (r: Result<u64, Error>) {
        let len: u64 = self.bytes.as_slice().len() as u64;
        let target: Option<u64> = match to {
            SeekFrom::Start(n) => Some(n),
            SeekFrom::End(d) => offset_position(len, d),
            SeekFrom::Current(d) => offset_position(self.pos, d),
        };
        match target {
            Some(p) => {
                self.pos = p;
                Ok(p)
            },
            None => Err(Error::InvalidSeek),
        }
    }
}

/// `base + delta`, or `None` where that is negative or above `u64::MAX`.
pub fn offset_position(base: u64, delta: i64) -> (r: Option<u64>)
    ensures
        0 <= base + delta <= u64::MAX ==> r == Some((base + delta) as u64),
        !(0 <= base + delta <= u64::MAX) ==> r.is_none(),
{
    if delta >= 0 {
        let up: u64 = delta as u64;
        if up <= u64::MAX - base {
            Some(base + up)
        } else {
            None
        }
    } else {
        // The distance down; `-delta` itself does not fit for the least `i64`.
        let down: u64 = (-(delta + 1)) as u64 + 1;
        if down <= base {
            Some(base - down)
        } else {
            None
        }
    }
}

/// What a reader context gives for the `size` bytes at `pos`, asked with
/// the brand `brand`.
///
/// A context without a file (`ctx_brand` is `None`) gives `NoReader`. A
/// context of another brand gives `BrandMismatch`. Else the result is the
/// part of `source` from `pos` on that is at most `size` bytes long: it is
/// shorter where the source ends first.
pub open spec fn window(source: Seq<u8>, ctx_brand: Option<u64>, pos: u64, size: u64, brand: u64)
    -> Result<Seq<u8>, Error> {
    match ctx_brand {
        None => Err(Error::NoReader),
        Some(b) => if b != brand {
            Err(Error::BrandMismatch)
        } else {
            let start = if pos <= source.len() {
                pos as int
            } else {
                source.len() as int
            };
            let end = if pos + size <= source.len() {
                pos + size
            } else {
                source.len() as int
            };
            Ok(source.subrange(start, end))
        },
    }
}

/// What stands behind a reader context.
pub trait FileReader: private::SealedCtx {
    /// The bytes of the file; empty where the context has no file.
    spec fn source(&self) -> Seq<u8>;

    /// The brand of the reader; `None` where the context has no file.
    spec fn brand(&self) -> Option<u64>;
}

/// A reader context: hands out the bytes of chunks to the handles that
/// carry its brand.
pub trait FileCtx: FileReader {
    /// A reader over the `size` bytes at `pos` of the file, for a handle of
    /// the brand `brand`.
    fn get_chunk_reader<'a>(&'a self, pos: u64, size: u64, brand: u64) -> (r: Result<
        ChunkReader<'a>,
        Error,
    >)
        ensures
            match window(self.source(), self.brand(), pos, size, brand) {
                Ok(bytes) => r.is_ok() && r.unwrap().stream() == bytes && r.unwrap().position()
                    == 0,
                Err(e) => r.is_err() && r.unwrap_err() == e,
            },
    ;
}

/// The context of an archive that was not read from a file: it has no bytes
/// to give, and fails every request.
#[derive(Debug, Clone, Copy, PartialEq, Eq, Structural)]
pub enum NeverReader {
    Unwritten,
}

impl private::SealedCtx for NeverReader {

}

impl FileReader for NeverReader {
    open spec fn source(&self) -> Seq<u8> {
        Seq::empty()
    }

    open spec fn brand(&self) -> Option<u64> {
        None
    }
}

impl FileCtx for NeverReader {
    fn get_chunk_reader<'a>(&'a self, pos: u64, size: u64, brand: u64) -> (r: Result<
        ChunkReader<'a>,
        Error,
    >) {
        Err(Error::NoReader)
    }
}

/// The file that an archive was parsed from, and the brand that the handles
/// of that archive carry.
#[derive(Debug)]
pub struct DBPFReader {
    data: Vec<u8>,
    brand: u64,
}

impl private::SealedCtx for DBPFReader {

}

impl FileReader for DBPFReader {
    closed spec fn source(&self) -> Seq<u8> {
        self.data@
    }

    closed spec fn brand(&self) -> Option<u64> {
        Some(self.brand)
    }
}

impl FileCtx for DBPFReader {
    fn get_chunk_reader<'a>(&'a self, pos: u64, size: u64, brand: u64) -> (r: Result<
        ChunkReader<'a>,
        Error,
    >) {
        if self.brand != brand {
            return Err(Error::BrandMismatch);
        }
        let len: usize = self.data.len();
        let start: usize = if pos <= len as u64 {
            pos as usize
        } else {
            len
        };
        let end: usize = if size <= (len - start) as u64 {
            start + size as usize
        } else {
            len
        };
        let bytes = slice_subrange(self.data.as_slice(), start, end);
        Ok(ChunkReader { bytes: ChunkBytes::Borrowed(bytes), pos: 0 })
    }
}

/// What a chunk handle holds, with byte sequences for its buffers.
pub enum ChunkView {
    Uncompressed { offset: u32, filesize: u32, brand: u64 },
    Compressed {
        offset: u32,
        filesize: u32,
        memsize: u32,
        decompressed: Option<Seq<u8>>,
        brand: u64,
    },
    Dirty { decompressed: Seq<u8>, should_compress: bool },
}

/// The handle of one chunk: where its bytes are and how they are stored.
#[derive(Debug, Clone)]
pub enum ChunkHandle {
    /// Stored as it is, in `filesize` bytes at `offset` of the file.
    Uncompressed {
        offset: u32,
        /// Below 2^31.
        filesize: u32,
        brand: u64,
    },
    /// Stored as a RefPack stream of `filesize` bytes at `offset` of the
    /// file, which the index says decompresses to `memsize` bytes.
    Compressed {
        offset: u32,
        /// Below 2^31.
        filesize: u32,
        memsize: u32,
        /// A place for the decompressed bytes; may be cleared.
        decompressed: Option<Vec<u8>>,
        brand: u64,
    },
    /// Held in memory, and in no file: the handle needs no reader and has
    /// no brand.
    Dirty { decompressed: Vec<u8>, should_compress: bool },
}

impl View for ChunkHandle {
    type V = ChunkView;

    open spec fn view(&self) -> ChunkView {
        match *self {
            ChunkHandle::Uncompressed { offset, filesize, brand } => ChunkView::Uncompressed {
                offset,
                filesize,
                brand,
            },
            ChunkHandle::Compressed {
                offset,
                filesize,
                memsize,
                decompressed,
                brand,
            } => ChunkView::Compressed {
                offset,
                filesize,
                memsize,
                decompressed: match decompressed {
                    Some(v) => Some(v@),
                    None => None,
                },
                brand,
            },
            ChunkHandle::Dirty { decompressed, should_compress } => ChunkView::Dirty {
                decompressed: decompressed@,
                should_compress,
            },
        }
    }
}

impl ChunkView {
    /// The decompressed length that the handle states: the stored `memsize`
    /// of a compressed chunk, the file size of an uncompressed one, the
    /// length of the buffer of a dirty one (modulo 2^32).
    pub open spec fn memsize(self) -> u32 {
        match self {
            ChunkView::Compressed { memsize, .. } => memsize,
            ChunkView::Uncompressed { filesize, .. } => filesize,
            ChunkView::Dirty { decompressed, .. } => (decompressed.len() % 0x1_0000_0000) as u32,
        }
    }

    /// The decompressed bytes of the chunk, as a reader of the handle gives
    /// them under a context with the file `source` and the brand
    /// `ctx_brand`.
    ///
    /// A dirty chunk gives its buffer under any context. An uncompressed
    /// chunk gives its window of the file. A compressed chunk gives what its
    /// window decodes to, or `CompressionFailed` with the decoder's error.
    pub open spec fn content(self, source: Seq<u8>, ctx_brand: Option<u64>) -> Result<
        Seq<u8>,
        Error,
    > {
        match self {
            ChunkView::Dirty { decompressed, .. } => Ok(decompressed),
            ChunkView::Uncompressed { offset, filesize, brand } => window(
                source,
                ctx_brand,
                offset as u64,
                filesize as u64,
                brand,
            ),
            ChunkView::Compressed { offset, filesize, brand, .. } => match window(
                source,
                ctx_brand,
                offset as u64,
                filesize as u64,
                brand,
            ) {
                Err(e) => Err(e),
                Ok(stored) => match decoded(stored, Seq::empty()).result {
                    Ok(_) => Ok(decoded(stored, Seq::empty()).output),
                    Err(e) => Err(Error::CompressionFailed(e)),
                },
            },
        }
    }
}

/// Whether `r` is what asking the handle `chunk` for a reader gives, under a
/// context with the file `source` and the brand `ctx_brand`: a reader that
/// stands at the start of the content of the chunk, or the error of the
/// content.
pub open spec fn reads<'a>(
    chunk: ChunkView,
    source: Seq<u8>,
    ctx_brand: Option<u64>,
    r: Result<ChunkReader<'a>, Error>,
) -> bool {
    match chunk.content(source, ctx_brand) {
        Ok(bytes) => r.is_ok() && r.unwrap().stream() == bytes && r.unwrap().position() == 0,
        Err(e) => r.is_err() && r.unwrap_err() == e,
    }
}

/// Where the stored bytes of a chunk lie in its file, and the brand of the
/// reader of that file.
#[derive(Debug, Clone, Copy, PartialEq, Eq, Structural)]
pub struct StoredRange {
    pub offset: u64,
    pub size: u64,
    pub brand: u64,
}

impl ChunkView {
    /// Where the stored bytes of the chunk lie; `None` for a dirty chunk,
    /// which is stored in no file.
    pub open spec fn stored_range(self) -> Option<StoredRange> {
        match self {
            ChunkView::Dirty { .. } => None,
            ChunkView::Uncompressed { offset, filesize, brand } => Some(
                StoredRange { offset: offset as u64, size: filesize as u64, brand },
            ),
            ChunkView::Compressed { offset, filesize, brand, .. } => Some(
                StoredRange { offset: offset as u64, size: filesize as u64, brand },
            ),
        }
    }

    /// The decompressed bytes of the chunk where its stored bytes are
    /// `stored`: the buffer of a dirty chunk, the stored bytes of an
    /// uncompressed one, and what the stored bytes of a compressed one
    /// decode to, or `CompressionFailed` with the decoder's error.
    pub open spec fn opened(self, stored: Seq<u8>) -> Result<Seq<u8>, Error> {
        match self {
            ChunkView::Dirty { decompressed, .. } => Ok(decompressed),
            ChunkView::Uncompressed { .. } => Ok(stored),
            ChunkView::Compressed { .. } => match decoded(stored, Seq::empty()).result {
                Ok(_) => Ok(decoded(stored, Seq::empty()).output),
                Err(e) => Err(Error::CompressionFailed(e)),
            },
        }
    }

    /// The content of a chunk is what its stored bytes, as the context
    /// gives them, are opened to.
    pub proof fn lemma_content_is_opened(self, source: Seq<u8>, ctx_brand: Option<u64>)
        ensures
            self.content(source, ctx_brand) == match self.stored_range() {
                None => self.opened(Seq::empty()),
                Some(range) => match window(
                    source,
                    ctx_brand,
                    range.offset,
                    range.size,
                    range.brand,
                ) {
                    Err(e) => Err(e),
                    Ok(stored) => self.opened(stored),
                },
            },
    {
    }
}

impl ChunkHandle {
    /// Where the stored bytes of the chunk lie; `None` for a dirty chunk.
    pub fn stored_range(&self) -> (r: Option<StoredRange>)
        ensures
            r == self@.stored_range(),
    {
        match self {
            ChunkHandle::Dirty { .. } => None,
            ChunkHandle::Uncompressed { offset, filesize, brand } => Some(
                StoredRange { offset: *offset as u64, size: *filesize as u64, brand: *brand },
            ),
            ChunkHandle::Compressed { offset, filesize, brand, .. } => Some(
                StoredRange { offset: *offset as u64, size: *filesize as u64, brand: *brand },
            ),
        }
    }

    /// A reader over the decompressed bytes of the chunk, made of its
    /// stored bytes `stored`, which the caller has read from the place that
    /// [`ChunkHandle::stored_range`] names. A dirty chunk does not look at
    /// `stored`.
    pub fn open_stored<'a>(&'a self, stored: &'a [u8]) -> (r: Result<ChunkReader<'a>, Error>)
        ensures
            match self@.opened(stored@) {
                Ok(bytes) => r.is_ok() && r.unwrap().stream() == bytes && r.unwrap().position()
                    == 0,
                Err(e) => r.is_err() && r.unwrap_err() == e,
            },
    {
        match self {
            ChunkHandle::Uncompressed { .. } => Ok(
                ChunkReader { bytes: ChunkBytes::Borrowed(stored), pos: 0 },
            ),
            ChunkHandle::Compressed { .. } => match decompress(stored) {
                Ok(decompressed) => Ok(
                    ChunkReader { bytes: ChunkBytes::Owned(decompressed), pos: 0 },
                ),
                Err(e) => Err(Error::CompressionFailed(e)),
            },
            ChunkHandle::Dirty { decompressed, .. } => Ok(
                ChunkReader { bytes: ChunkBytes::Borrowed(decompressed.as_slice()), pos: 0 },
            ),
        }
    }

    /// The decompressed length in bytes that the handle states.
    pub fn memsize(&self) -> (r: u32)
        ensures
            r == self@.memsize(),
    {
        match self {
            ChunkHandle::Compressed { memsize, .. } => *memsize,
            ChunkHandle::Uncompressed { filesize, .. } => *filesize,
            ChunkHandle::Dirty { decompressed, .. } => (decompressed.len() as u64
                % 0x1_0000_0000) as u32,
        }
    }

    /// A reader that stands at the start of the decompressed bytes of the
    /// chunk.
    ///
    /// The bytes are those of [`ChunkView::content`]; a compressed chunk is
    /// decompressed by this call, each time anew.
    pub fn get_reader<'a, Ctx: FileCtx>(&'a self, ctx: &'a Ctx) -> (r: Result<
        ChunkReader<'a>,
        Error,
    >)
        ensures
            reads(self@, ctx.source(), ctx.brand(), r),
    {
        match self {
            ChunkHandle::Uncompressed { offset, filesize, brand } => ctx.get_chunk_reader(
                *offset as u64,
                *filesize as u64,
                *brand,
            ),
            ChunkHandle::Compressed { offset, filesize, brand, .. } => {
                let mut reader = ctx.get_chunk_reader(*offset as u64, *filesize as u64, *brand)?;
                let compressed = reader.read_to_end();
                assert(compressed@ =~= reader.stream());
                match decompress(compressed.as_slice()) {
                    Ok(decompressed) => Ok(
                        ChunkReader { bytes: ChunkBytes::Owned(decompressed), pos: 0 },
                    ),
                    Err(e) => Err(Error::CompressionFailed(e)),
                }
            },
            ChunkHandle::Dirty { decompressed, .. } => Ok(
                ChunkReader { bytes: ChunkBytes::Borrowed(decompressed.as_slice()), pos: 0 },
            ),
        }
    }
}

/// What an entry of an archive holds, with the view of its chunk handle.
pub struct EntryView {
    pub resource_type: u32,
    pub resource_group: u32,
    pub instance: u64,
    pub unk1: bool,
    pub unk2: u16,
    pub chunk: ChunkView,
}

/// One resource of an archive: its type, group and instance, two fields of
/// unknown meaning, and the handle of its chunk.
#[derive(Debug, Clone)]
pub struct DBPFIndexEntry {
    pub resource_type: u32,
    pub resource_group: u32,
    pub instance: u64,
    /// The high bit of the stored file size.
    pub unk1: bool,
    /// The high half of the stored compression word.
    pub unk2: u16,
    pub chunk: ChunkHandle,
}

impl View for DBPFIndexEntry {
    type V = EntryView;

    open spec fn view(&self) -> EntryView {
        EntryView {
            resource_type: self.resource_type,
            resource_group: self.resource_group,
            instance: self.instance,
            unk1: self.unk1,
            unk2: self.unk2,
            chunk: self.chunk@,
        }
    }
}

/// The marker in the low half of the compression word of a compressed
/// chunk.
pub const COMPRESSED: u16 = 0xFFFF;

/// The entry that the stored entry `raw` stands for, in an archive of the
/// brand `brand`.
///
/// The instance is made of its two halves, `unk1` is the high bit of the
/// size word, `unk2` the high half of the compression word. The chunk is
/// compressed where the low half of the compression word is `0xFFFF`, and
/// its cache is empty.
pub open spec fn entry_of_raw(raw: IndexEntry, brand: u64) -> EntryView {
    EntryView {
        resource_type: raw.resource_type,
        resource_group: raw.resource_group,
        instance: (raw.instance_hi as int * 0x1_0000_0000 + raw.instance_lo as int) as u64,
        unk1: raw.filesize_unk1.unk1_of(),
        unk2: raw.compressed_unk2.1,
        chunk: if raw.compressed_unk2.0 == COMPRESSED {
            ChunkView::Compressed {
                offset: raw.chunk_offset,
                filesize: raw.filesize_unk1.filesize_of(),
                memsize: raw.memsize,
                decompressed: None,
                brand,
            }
        } else {
            ChunkView::Uncompressed {
                offset: raw.chunk_offset,
                filesize: raw.filesize_unk1.filesize_of(),
                brand,
            }
        },
    }
}

impl ChunkView {
    /// The number of bytes that the layout of an archive gives the chunk:
    /// the file size of a chunk that lives in a file, the length of the
    /// buffer of a dirty one.
    pub open spec fn stored_size(self) -> int {
        match self {
            ChunkView::Uncompressed { filesize, .. } => filesize as int,
            ChunkView::Compressed { filesize, .. } => filesize as int,
            ChunkView::Dirty { decompressed, .. } => decompressed.len() as int,
        }
    }
}

/// The stored entry for `entry`, with its chunk at `offset`. The stored
/// size of the chunk must be below 2^31.
///
/// A compressed chunk keeps its marker and its sizes. An uncompressed or
/// dirty chunk is stored without the marker, and its decompressed size is
/// its stored size.
pub open spec fn raw_of(entry: EntryView, offset: u32) -> IndexEntry
    recommends
        entry.chunk.stored_size() < 0x8000_0000,
{
    IndexEntry {
        resource_type: entry.resource_type,
        resource_group: entry.resource_group,
        instance_hi: (entry.instance / 0x1_0000_0000) as u32,
        instance_lo: (entry.instance % 0x1_0000_0000) as u32,
        chunk_offset: offset,
        filesize_unk1: IndexFilesize {
            value: (entry.chunk.stored_size() + if entry.unk1 {
                0x8000_0000int
            } else {
                0int
            }) as u32,
        },
        memsize: match entry.chunk {
            ChunkView::Compressed { memsize, .. } => memsize,
            _ => entry.chunk.stored_size() as u32,
        },
        compressed_unk2: (
            if entry.chunk is Compressed {
                COMPRESSED
            } else {
                0u16
            },
            entry.unk2,
        ),
    }
}

impl DBPFIndexEntry {
    /// The entry that the stored entry `value` stands for.
    pub fn from_raw(value: IndexEntry, brand: u64) -> (r: Self)
        ensures
            r@ == entry_of_raw(value, brand),
    {
        DBPFIndexEntry {
            resource_type: value.resource_type,
            resource_group: value.resource_group,
            instance: value.instance_hi as u64 * 0x1_0000_0000 + value.instance_lo as u64,
            unk1: value.filesize_unk1.unk1(),
            unk2: value.compressed_unk2.1,
            chunk: if value.compressed_unk2.0 == COMPRESSED {
                ChunkHandle::Compressed {
                    offset: value.chunk_offset,
                    filesize: value.filesize_unk1.filesize(),
                    memsize: value.memsize,
                    decompressed: None,
                    brand,
                }
            } else {
                ChunkHandle::Uncompressed {
                    offset: value.chunk_offset,
                    filesize: value.filesize_unk1.filesize(),
                    brand,
                }
            },
        }
    }
}

impl IndexEntry {
    /// The stored entry for `value`, with its chunk at `*current_offset`,
    /// which is moved behind the chunk.
    ///
    /// Fails with `TooLarge`, leaving `*current_offset` alone, where the
    /// stored size of the chunk is 2^31 or more, or the end of the chunk is
    /// beyond the largest offset.
    pub fn from_nice(value: &DBPFIndexEntry, current_offset: &mut u32) -> (r: Result<
        IndexEntry,
        Error,
    >)
        ensures
            value@.chunk.stored_size() < 0x8000_0000 && *old(current_offset)
                + value@.chunk.stored_size() <= u32::MAX ==> r == Ok::<IndexEntry, Error>(
                raw_of(value@, *old(current_offset)),
            ) && *final(current_offset) == *old(current_offset) + value@.chunk.stored_size(),
            !(value@.chunk.stored_size() < 0x8000_0000 && *old(current_offset)
                + value@.chunk.stored_size() <= u32::MAX) ==> r == Err::<IndexEntry, Error>(
                Error::TooLarge,
            ) && *final(current_offset) == *old(current_offset),
    {
        let chunk_offset: u32 = *current_offset;
        let chunk_filesize: u32;
        let chunk_memsize: u32;
        let compressed: bool;
        match &value.chunk {
            ChunkHandle::Uncompressed { filesize, .. } => {
                compressed = false;
                chunk_memsize = *filesize;
                chunk_filesize = *filesize;
            },
            ChunkHandle::Compressed { filesize, memsize, .. } => {
                compressed = true;
                chunk_memsize = *memsize;
                chunk_filesize = *filesize;
            },
            ChunkHandle::Dirty { decompressed, .. } => {
                if decompressed.len() >= 0x8000_0000 {
                    return Err(Error::TooLarge);
                }
                compressed = false;
                chunk_memsize = decompressed.len() as u32;
                chunk_filesize = decompressed.len() as u32;
            },
        }
        if chunk_filesize >= 0x8000_0000 || chunk_filesize > u32::MAX - chunk_offset {
            return Err(Error::TooLarge);
        }
        *current_offset = chunk_offset + chunk_filesize;
        Ok(
            IndexEntry {
                resource_type: value.resource_type,
                resource_group: value.resource_group,
                instance_hi: (value.instance / 0x1_0000_0000) as u32,
                instance_lo: (value.instance % 0x1_0000_0000) as u32,
                chunk_offset,
                filesize_unk1: IndexFilesize::new(chunk_filesize, value.unk1),
                memsize: chunk_memsize,
                compressed_unk2: (
                    if compressed {
                        COMPRESSED
                    } else {
                        0
                    },
                    value.unk2,
                ),
            },
        )
    }
}

/// What an archive holds, with the views of its entries.
pub struct ArchiveView {
    pub maybe_flags: u32,
    pub created_timestamp: u32,
    pub modified_timestamp: u32,
    pub entries: Seq<EntryView>,
}

/// An archive: three words of the header and the entries, in the order of
/// the index. `Ctx` is the kind of context that its chunks are read with.
#[derive(Debug)]
pub struct DBPF<Ctx> {
    pub maybe_flags: u32,
    /// Usually 0.
    pub created_timestamp: u32,
    /// Usually 0.
    pub modified_timestamp: u32,
    pub entries: Vec<DBPFIndexEntry>,
    pub phantom: PhantomData<Ctx>,
}

impl<Ctx> View for DBPF<Ctx> {
    type V = ArchiveView;

    open spec fn view(&self) -> ArchiveView {
        ArchiveView {
            maybe_flags: self.maybe_flags,
            created_timestamp: self.created_timestamp,
            modified_timestamp: self.modified_timestamp,
            entries: entry_views(self.entries@),
        }
    }
}

/// The views of `entries`, in order.
pub open spec fn entry_views(entries: Seq<DBPFIndexEntry>) -> Seq<EntryView> {
    Seq::new(entries.len(), |j: int| entries[j]@)
}

/// The entries that the stored entries `raw` stand for, in order.
pub open spec fn entries_of_raw(raw: Seq<IndexEntry>, brand: u64) -> Seq<EntryView> {
    Seq::new(raw.len(), |j: int| entry_of_raw(raw[j], brand))
}

/// What parsing gives where the header `header` was read and `index` holds
/// the file from the index position on.
///
/// The index is read with as many entries as the header names;
/// `TruncatedInput` where `index` ends before the index does. Then
/// `IndexMismatch` where the index size of the header is not the size that
/// the mask and the entry count give.
pub open spec fn parsed_parts(header: DBPFHeader, index: Seq<u8>, brand: u64) -> Result<
    ArchiveView,
    Error,
> {
    match parsed_index(index, header.index_entries as nat) {
        Err(e) => Err(e),
        Ok((mask, raw)) => if header.index_size != index_size(mask, header.index_entries as int) {
            Err(Error::IndexMismatch)
        } else {
            Ok(
                ArchiveView {
                    maybe_flags: header.maybe_flags,
                    created_timestamp: header.created_timestamp,
                    modified_timestamp: header.modified_timestamp,
                    entries: entries_of_raw(raw, brand),
                },
            )
        },
    }
}

/// What parsing the file `data` under the brand `brand` gives.
///
/// The header is read first, with its errors. The index is read at the
/// position that the header names, as [`parsed_parts`] says;
/// `TruncatedInput` where the file ends before that position. No byte of a
/// chunk is looked at.
pub open spec fn parsed(data: Seq<u8>, brand: u64) -> Result<ArchiveView, Error> {
    match parsed_header(data) {
        Err(e) => Err(e),
        Ok(header) => if header.index_position > data.len() {
            Err(Error::TruncatedInput)
        } else {
            parsed_parts(header, data.skip(header.index_position as int), brand)
        },
    }
}

impl DBPF<NeverReader> {
    /// An empty archive that belongs to no file. It can hold dirty chunks
    /// only, and is read with the context that has no file.
    pub fn new() -> (r: Self)
        ensures
            r@ == (ArchiveView {
                maybe_flags: 0,
                created_timestamp: 0,
                modified_timestamp: 0,
                entries: Seq::empty(),
            }),
            r.entries@.len() == 0,
    {
        let r = DBPF {
            maybe_flags: 0,
            created_timestamp: 0,
            modified_timestamp: 0,
            entries: Vec::new(),
            phantom: PhantomData,
        };
        assert(entry_views(r.entries@) =~= Seq::empty());
        r
    }
}

impl<Ctx: FileCtx> DBPF<Ctx> {
    /// Parses the index of an archive whose header `header` was read
    /// already; `index` holds the file from the index position on, or at
    /// least the whole index. See [`parsed_parts`].
    pub fn read_parts(header: &DBPFHeader, index: &[u8], brand: u64) -> (r: Result<Self, Error>)
        ensures
            match parsed_parts(*header, index@, brand) {
                Ok(archive) => r matches Ok(a) && a@ == archive,
                Err(e) => r matches Err(x) && x == e,
            },
    {
        assert(index@.skip(0) =~= index@);
        let (mask, raw) = read_index(index, 0, header.index_entries)?;
        match mask.index_size(header.index_entries) {
            Some(size) => {
                if size != header.index_size {
                    return Err(Error::IndexMismatch);
                }
            },
            None => {
                return Err(Error::IndexMismatch);
            },
        }
        let mut entries: Vec<DBPFIndexEntry> = Vec::new();
        let mut j: usize = 0;
        while j < raw.len()
            invariant
                j <= raw@.len(),
                entries@.len() == j,
                forall|i: int| 0 <= i < j ==> (#[trigger] entries@[i])@ == entry_of_raw(raw@[i], brand),
            decreases raw@.len() - j,
        {
            entries.push(DBPFIndexEntry::from_raw(raw[j], brand));
            j += 1;
        }
        assert(entry_views(entries@) =~= entries_of_raw(raw@, brand));
        Ok(
            DBPF {
                maybe_flags: header.maybe_flags,
                created_timestamp: header.created_timestamp,
                modified_timestamp: header.modified_timestamp,
                entries,
                phantom: PhantomData,
            },
        )
    }

    /// Parses the header and the index of the file `data`; see [`parsed`].
    pub fn read(data: &[u8], brand: u64) -> (r: Result<Self, Error>)
        ensures
            match parsed(data@, brand) {
                Ok(archive) => r matches Ok(a) && a@ == archive,
                Err(e) => r matches Err(x) && x == e,
            },
    {
        let header = DBPFHeader::read(data)?;
        let start = header.index_position as usize;
        if start > data.len() {
            return Err(Error::TruncatedInput);
        }
        assert(data@.subrange(start as int, data@.len() as int) =~= data@.skip(start as int));
        Self::read_parts(&header, slice_subrange(data, start, data.len()), brand)
    }
}

impl DBPFReader {
    /// Parses the archive in `data` and keeps `data` as the file that the
    /// chunks of the archive are read from.
    ///
    /// `brand` ties the handles of the archive to the reader that is
    /// returned: a reader made with another brand refuses them. It is for
    /// the caller to give each open archive a brand of its own.
    pub fn parse(data: Vec<u8>, brand: u64) -> (r: Result<(DBPFReader, DBPF<DBPFReader>), Error>)
        ensures
            match parsed(data@, brand) {
                Ok(archive) => r matches Ok(pair) && pair.1@ == archive && pair.0.source()
                    == data@ && pair.0.brand() == Some(brand),
                Err(e) => r matches Err(x) && x == e,
            },
    {
        let dbpf = DBPF::<DBPFReader>::read(data.as_slice(), brand)?;
        Ok((DBPFReader { data, brand }, dbpf))
    }

    /// The whole file.
    pub fn data(&self) -> (r: &[u8])
        ensures
            r@ == self.source(),
    {
        self.data.as_slice()
    }

    /// The brand that the reader was made with.
    pub fn brand_id(&self) -> (r: u64)
        ensures
            self.brand() == Some(r),
    {
        self.brand
    }
}

/// The stored sizes of the first `j` chunks of `entries`, added up.
pub open spec fn sizes_sum(entries: Seq<EntryView>, j: int) -> int
    decreases j,
{
    if j <= 0 {
        0
    } else {
        sizes_sum(entries, j - 1) + entries[j - 1].chunk.stored_size()
    }
}

/// Whether the stored size of every chunk is below 2^31.
pub open spec fn sizes_fit(entries: Seq<EntryView>) -> bool {
    forall|j: int| 0 <= j < entries.len() ==> (#[trigger] entries[j]).chunk.stored_size() < 0x8000_0000
}

/// The stored entries for `entries`, with the chunks one behind the other
/// from the offset `base` on.
pub open spec fn laid_out(entries: Seq<EntryView>, base: int) -> Seq<IndexEntry> {
    Seq::new(entries.len(), |j: int| raw_of(entries[j], (base + sizes_sum(entries, j)) as u32))
}

/// The mask of the index that is written for `entries`: a field is in the
/// template where all stored entries agree in it. The mask does not depend
/// on where the chunks start.
pub open spec fn layout_mask(entries: Seq<EntryView>) -> u32 {
    template_mask(common_template(laid_out(entries, HEADER_SIZE as int)))
}

/// Whether an archive of `entries` can be written: there are at most
/// `u32::MAX` entries, every chunk is below 2^31 bytes, and the file as laid
/// out ends at or before `u32::MAX`.
pub open spec fn fits(entries: Seq<EntryView>) -> bool {
    &&& entries.len() <= u32::MAX
    &&& sizes_fit(entries)
    &&& HEADER_SIZE + index_size(layout_mask(entries), entries.len() as int) + sizes_sum(
        entries,
        entries.len() as int,
    ) <= u32::MAX
}

/// The bytes of all chunks of `entries`, one behind the other, as their
/// readers give them; or the error of the first chunk that cannot be read.
pub open spec fn payload(entries: Seq<EntryView>, source: Seq<u8>, ctx_brand: Option<u64>)
    -> Result<Seq<u8>, Error>
    decreases entries.len(),
{
    if entries.len() == 0 {
        Ok(Seq::empty())
    } else {
        match payload(entries.drop_last(), source, ctx_brand) {
            Err(e) => Err(e),
            Ok(front) => match entries.last().chunk.content(source, ctx_brand) {
                Err(e) => Err(e),
                Ok(bytes) => Ok(front + bytes),
            },
        }
    }
}

/// The header that is written for `archive`: the index follows the header,
/// there are no holes.
pub open spec fn written_header(archive: ArchiveView) -> DBPFHeader {
    DBPFHeader {
        maybe_flags: archive.maybe_flags,
        created_timestamp: archive.created_timestamp,
        modified_timestamp: archive.modified_timestamp,
        index_entries: archive.entries.len() as u32,
        index_position_old: 0,
        index_size: index_size(layout_mask(archive.entries), archive.entries.len() as int) as u32,
        hole_index_count: 0,
        hole_index_position: 0,
        hole_index_size: 0,
        index_position: HEADER_SIZE as u32,
    }
}

/// The stored entries that are written for `entries`: the chunks start
/// behind the header and the index.
pub open spec fn written_entries(entries: Seq<EntryView>) -> Seq<IndexEntry> {
    laid_out(
        entries,
        HEADER_SIZE + index_size(layout_mask(entries), entries.len() as int),
    )
}

/// The file that is written for `archive` under a context with the file
/// `source` and the brand `ctx_brand`.
///
/// `TooLarge` where the archive does not fit the format; else the error of
/// the first chunk that cannot be read; else the header, the index (once),
/// and the decompressed bytes of the chunks in the order of the entries.
///
/// Compressed chunks cannot be written as such: the bytes of a compressed
/// chunk go out decompressed, while its entry keeps the marker and the sizes
/// that it had. Only archives without compressed chunks are written so that
/// they can be read again.
pub open spec fn written(archive: ArchiveView, source: Seq<u8>, ctx_brand: Option<u64>) -> Result<
    Seq<u8>,
    Error,
> {
    if !fits(archive.entries) {
        Err(Error::TooLarge)
    } else {
        match payload(archive.entries, source, ctx_brand) {
            Err(e) => Err(e),
            Ok(chunks) => Ok(
                written_header(archive).bytes() + index_bytes(
                    common_template(written_entries(archive.entries)),
                    written_entries(archive.entries),
                ) + chunks,
            ),
        }
    }
}

/// The sum of the stored sizes grows with the number of chunks.
pub proof fn lemma_sizes_sum_monotone(entries: Seq<EntryView>, i: int, j: int)
    requires
        0 <= i <= j <= entries.len(),
    ensures
        0 <= sizes_sum(entries, i) <= sizes_sum(entries, j),
    decreases j,
{
    if i < j {
        lemma_sizes_sum_monotone(entries, i, j - 1);
    } else if i > 0 {
        lemma_sizes_sum_monotone(entries, i - 1, i - 1);
    }
}

/// Where the chunks start does not change in which fields the stored
/// entries agree, and so not the mask.
pub proof fn lemma_layout_mask(entries: Seq<EntryView>, base: int)
    requires
        HEADER_SIZE <= base,
        base + sizes_sum(entries, entries.len() as int) <= u32::MAX,
    ensures
        template_mask(common_template(laid_out(entries, base))) == layout_mask(entries),
{
    let a = laid_out(entries, HEADER_SIZE as int);
    let b = laid_out(entries, base);
    let n = entries.len() as int;
    assert forall|i: int| 0 <= i < 8 implies #[trigger] agree(a, i) == agree(b, i) by {
        assert forall|j: int| 0 <= j < n implies ((#[trigger] a[j]).words()[i] == a[0].words()[i]) == (
        b[j].words()[i] == b[0].words()[i]) by {
            lemma_sizes_sum_monotone(entries, j, n);
            lemma_sizes_sum_monotone(entries, 0, n);
        }
        if agree(a, i) {
            assert forall|j: int| 0 <= j < n implies (#[trigger] b[j]).words()[i] == b[0].words()[i] by {
                assert(a[j].words()[i] == a[0].words()[i]);
            }
        }
        if agree(b, i) {
            assert forall|j: int| 0 <= j < n implies (#[trigger] a[j]).words()[i] == a[0].words()[i] by {
                assert(b[j].words()[i] == b[0].words()[i]);
            }
        }
    }
    assert(Seq::new(8, |i: int| common_template(a)[i].is_some()) =~= Seq::new(
        8,
        |i: int| common_template(b)[i].is_some(),
    ));
}

/// The stored entries for `entries`, with the chunks one behind the other
/// from the offset `base` on.
///
/// Fails with `TooLarge` where a chunk is 2^31 bytes or more, or the last
/// chunk ends beyond the largest offset.
pub fn lay_out(entries: &Vec<DBPFIndexEntry>, base: u32) -> (r: Result<Vec<IndexEntry>, Error>)
    ensures
        sizes_fit(entry_views(entries@)) && base + sizes_sum(
            entry_views(entries@),
            entries@.len() as int,
        ) <= u32::MAX ==> (r matches Ok(raw) && raw@ == laid_out(
            entry_views(entries@),
            base as int,
        )),
        !(sizes_fit(entry_views(entries@)) && base + sizes_sum(
            entry_views(entries@),
            entries@.len() as int,
        ) <= u32::MAX) ==> r == Err::<Vec<IndexEntry>, Error>(Error::TooLarge),
{
    let ghost views = entry_views(entries@);
    let mut current_offset: u32 = base;
    let mut raw: Vec<IndexEntry> = Vec::new();
    let mut j: usize = 0;
    while j < entries.len()
        invariant
            j <= entries@.len(),
            views == entry_views(entries@),
            current_offset == base + sizes_sum(views, j as int),
            raw@.len() == j,
            forall|i: int| 0 <= i < j ==> (#[trigger] views[i]).chunk.stored_size() < 0x8000_0000,
            forall|i: int|
                0 <= i < j ==> #[trigger] raw@[i] == raw_of(
                    views[i],
                    (base + sizes_sum(views, i)) as u32,
                ),
        decreases entries@.len() - j,
    {
        assert(views[j as int] == entries@[j as int]@);
        match IndexEntry::from_nice(&entries[j], &mut current_offset) {
            Ok(entry) => {
                raw.push(entry);
            },
            Err(e) => {
                proof {
                    if views[j as int].chunk.stored_size() < 0x8000_0000 {
                        lemma_sizes_sum_monotone(views, j + 1, entries@.len() as int);
                    }
                }
                return Err(Error::TooLarge);
            },
        }
        j += 1;
    }
    assert(raw@ =~= laid_out(views, base as int));
    Ok(raw)
}

/// The header, the template and the stored entries that are written for
/// the archive of `entries` with the given header words.
///
/// Fails with `TooLarge` exactly where the archive does not fit the format.
pub fn plan_layout(
    maybe_flags: u32,
    created_timestamp: u32,
    modified_timestamp: u32,
    entries: &Vec<DBPFIndexEntry>,
) -> (r: Result<(DBPFHeader, PartialIndexEntry, Vec<IndexEntry>), Error>)
    ensures
        fits(entry_views(entries@)) ==> (r matches Ok(plan) && plan.0 == written_header(
            ArchiveView {
                maybe_flags,
                created_timestamp,
                modified_timestamp,
                entries: entry_views(entries@),
            },
        ) && plan.1.fields@ == common_template(written_entries(entry_views(entries@))) && plan.2@
            == written_entries(entry_views(entries@))),
        !fits(entry_views(entries@)) ==> r == Err::<
            (DBPFHeader, PartialIndexEntry, Vec<IndexEntry>),
            Error,
        >(Error::TooLarge),
{
    let ghost views = entry_views(entries@);
    if entries.len() > u32::MAX as usize {
        return Err(Error::TooLarge);
    }
    let count: u32 = entries.len() as u32;
    // The chunks follow the header and the index. The size of the index
    // depends on the mask, so lay the chunks out behind the header first
    // and move them behind the index once its size is known.
    proof {
        lemma_sizes_sum_monotone(views, 0, views.len() as int);
        lemma_index_size_bounds(layout_mask(views), views.len() as int);
    }
    let first = match lay_out(entries, HEADER_SIZE as u32) {
        Ok(first) => first,
        Err(e) => {
            return Err(Error::TooLarge);
        },
    };
    let mask = PartialIndexEntry::calc_common_entries(first.as_slice()).calc_mask();
    assert(mask.value == layout_mask(views));
    let index_size: u32 = match mask.index_size(count) {
        Some(size) => size,
        None => {
            return Err(Error::TooLarge);
        },
    };
    if index_size > u32::MAX - HEADER_SIZE as u32 {
        return Err(Error::TooLarge);
    }
    let stored = match lay_out(entries, HEADER_SIZE as u32 + index_size) {
        Ok(stored) => stored,
        Err(e) => {
            return Err(Error::TooLarge);
        },
    };
    let common = PartialIndexEntry::calc_common_entries(stored.as_slice());
    let header = DBPFHeader {
        maybe_flags,
        created_timestamp,
        modified_timestamp,
        index_entries: count,
        index_position_old: 0,
        index_size,
        hole_index_count: 0,
        hole_index_position: 0,
        hole_index_size: 0,
        index_position: HEADER_SIZE as u32,
    };
    Ok((header, common, stored))
}

impl<Ctx: FileCtx> DBPF<Ctx> {
    /// Appends the decompressed bytes of every chunk, in the order of the
    /// entries, as the readers of the handles give them under `ctx`. Stops
    /// at the first chunk that cannot be read, with its error.
    pub fn write_chunks(&self, ctx: &Ctx, out: &mut Vec<u8>) -> (r: Result<(), Error>)
        ensures
            match payload(self@.entries, ctx.source(), ctx.brand()) {
                Ok(chunks) => r.is_ok() && final(out)@ == old(out)@ + chunks,
                Err(e) => r == Err::<(), Error>(e),
            },
    {
        let ghost views = entry_views(self.entries@);
        let mut j: usize = 0;
        assert(out@ =~= old(out)@ + Seq::<u8>::empty());
        while j < self.entries.len()
            invariant
                j <= self.entries@.len(),
                views == entry_views(self.entries@),
                (payload(views.take(j as int), ctx.source(), ctx.brand()) matches Ok(chunks)
                    && out@ == old(out)@ + chunks),
            decreases self.entries@.len() - j,
        {
            proof {
                assert(views.take(j + 1).drop_last() =~= views.take(j as int));
                assert(views.take(j + 1).last() == self.entries@[j as int]@);
            }
            let mut reader = match self.entries[j].chunk.get_reader(ctx) {
                Ok(reader) => reader,
                Err(e) => {
                    proof {
                        lemma_payload_error(views, j + 1, ctx.source(), ctx.brand());
                    }
                    return Err(e);
                },
            };
            let bytes = reader.read_to_end();
            out.extend_from_slice(bytes.as_slice());
            proof {
                let before = payload(views.take(j as int), ctx.source(), ctx.brand()).unwrap();
                assert(bytes@ =~= reader.stream());
                assert(out@ =~= old(out)@ + (before + bytes@));
            }
            j += 1;
        }
        assert(views.take(j as int) =~= views);
        Ok(())
    }

    /// The whole file of the archive; see [`written`].
    ///
    /// Each chunk is asked for its reader under `ctx` and copied out as the
    /// reader gives it, so that dirty chunks go out uncompressed.
    pub fn write(&self, ctx: &Ctx) -> (r: Result<Vec<u8>, Error>)
        ensures
            match written(self@, ctx.source(), ctx.brand()) {
                Ok(bytes) => r matches Ok(v) && v@ == bytes,
                Err(e) => r matches Err(x) && x == e,
            },
    {
        let (header, common, entries) = plan_layout(
            self.maybe_flags,
            self.created_timestamp,
            self.modified_timestamp,
            &self.entries,
        )?;
        let mut out: Vec<u8> = Vec::new();
        header.write(&mut out);
        write_index(&mut out, &common, entries.as_slice());
        self.write_chunks(ctx, &mut out)?;
        Ok(out)
    }
}

/// Whether `r` is what gathering the names of `archive` gives, under a
/// context with the file `source` and the brand `ctx_brand`.
pub open spec fn gathers(
    archive: ArchiveView,
    source: Seq<u8>,
    ctx_brand: Option<u64>,
    r: Result<BTreeMap<u64, String>, Error>,
) -> bool {
    match gathered(archive.entries, source, ctx_brand) {
        Ok(names) => r.is_ok() && names_chars(r.unwrap()@) == names,
        Err(e) => r.is_err() && r.unwrap_err() == e,
    }
}

impl<Ctx: FileCtx> DBPF<Ctx> {
    /// The names that the name maps of the archive give to instances,
    /// ordered by instance; see [`gathered`].
    pub fn gather_names(&self, ctx: &Ctx) -> (r: Result<BTreeMap<u64, String>, Error>)
        ensures
            gathers(self@, ctx.source(), ctx.brand(), r),
    {
        gather_names_of(&self.entries, ctx)
    }
}

/// An error among the first `j` chunks is the error of all of them.
pub proof fn lemma_payload_error(
    entries: Seq<EntryView>,
    j: int,
    source: Seq<u8>,
    ctx_brand: Option<u64>,
)
    requires
        0 <= j <= entries.len(),
        payload(entries.take(j), source, ctx_brand).is_err(),
    ensures
        payload(entries, source, ctx_brand) == payload(entries.take(j), source, ctx_brand),
    decreases entries.len() - j,
{
    if j == entries.len() {
        assert(entries.take(j) =~= entries);
    } else {
        assert(entries.take(j + 1).drop_last() =~= entries.take(j));
        lemma_payload_error(entries, j + 1, source, ctx_brand);
    }
}

} // verus!
