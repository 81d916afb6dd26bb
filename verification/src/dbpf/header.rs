//! The 96-byte header of an archive: 24 little-endian words.

use crate::error::Error;
use crate::util::lemma_words_le;
use crate::util::read_u32_le;
use crate::util::word_at;
use crate::util::words_le;
use crate::util::write_u32_le;
use vstd::prelude::*;

verus! {

/// The length of the header in bytes.
pub const HEADER_SIZE: usize = 96;

/// The bytes `DBPF`, read as a little-endian word.
pub const MAGIC: u32 = 0x4650_4244;

/// The major version of the supported format.
pub const MAJOR: u32 = 2;

/// The major version of the supported index.
pub const INDEX_MAJOR: u32 = 7;

/// The minor version of the supported index.
pub const INDEX_MINOR: u32 = 3;

/// The fields of the header that vary from archive to archive.
#[derive(Debug, Clone, Copy, PartialEq, Eq, Structural)]
pub struct DBPFHeader {
    pub maybe_flags: u32,
    /// Usually 0.
    pub created_timestamp: u32,
    /// Usually 0.
    pub modified_timestamp: u32,
    pub index_entries: u32,
    /// Where format 1.x kept its index; 0 in this format.
    pub index_position_old: u32,
    pub index_size: u32,
    /// The hole index is usually empty, and these three 0.
    pub hole_index_count: u32,
    pub hole_index_position: u32,
    pub hole_index_size: u32,
    pub index_position: u32,
}

impl DBPFHeader {
    /// The 24 words of the header: the magic, the format version 2.0 and the
    /// user version 0.0, flags and timestamps, the index version 7, the
    /// index and hole tables, the index minor version 3, the index
    /// position, and seven reserved words of 0.
    pub open spec fn words(self) -> Seq<u32> {
        seq![
            MAGIC,
            MAJOR,
            0,
            0,
            0,
            self.maybe_flags,
            self.created_timestamp,
            self.modified_timestamp,
            INDEX_MAJOR,
            self.index_entries,
            self.index_position_old,
            self.index_size,
            self.hole_index_count,
            self.hole_index_position,
            self.hole_index_size,
            INDEX_MINOR,
            self.index_position,
            0,
            0,
            0,
            0,
            0,
            0,
            0,
        ]
    }

    /// The 96 bytes of the header.
    pub open spec fn bytes(self) -> Seq<u8> {
        words_le(self.words())
    }
}

/// What reading a header from the start of `data` gives.
///
/// `TruncatedInput` where there are fewer than 96 bytes; else `BadMagic`
/// where the first word is not the magic; else `BadVersion` where the format
/// version is not 2.0, the user version not 0.0, or the index version not
/// 7.3; else the fields.
pub open spec fn parsed_header(data: Seq<u8>) -> Result<DBPFHeader, Error> {
    if data.len() < HEADER_SIZE {
        Err(Error::TruncatedInput)
    } else if word_at(data, 0) != MAGIC {
        Err(Error::BadMagic)
    } else if word_at(data, 1) != MAJOR || word_at(data, 2) != 0 || word_at(data, 3) != 0 || word_at(
        data,
        4,
    ) != 0 || word_at(data, 8) != INDEX_MAJOR || word_at(data, 15) != INDEX_MINOR {
        Err(Error::BadVersion)
    } else {
        Ok(
            DBPFHeader {
                maybe_flags: word_at(data, 5),
                created_timestamp: word_at(data, 6),
                modified_timestamp: word_at(data, 7),
                index_entries: word_at(data, 9),
                index_position_old: word_at(data, 10),
                index_size: word_at(data, 11),
                hole_index_count: word_at(data, 12),
                hole_index_position: word_at(data, 13),
                hole_index_size: word_at(data, 14),
                index_position: word_at(data, 16),
            },
        )
    }
}

/// A header that was written is read back as it was, whatever follows it.
pub proof fn lemma_header_round_trip(header: DBPFHeader, rest: Seq<u8>)
    ensures
        header.bytes().len() == HEADER_SIZE,
        parsed_header(header.bytes() + rest) == Ok::<DBPFHeader, Error>(header),
{
    let w = header.words();
    let data = header.bytes() + rest;
    lemma_words_le(w);
    assert forall|i: int| 0 <= i < 24 implies #[trigger] word_at(data, i) == w[i] by {
        assert(data.subrange(4 * i, 4 * i + 4) =~= header.bytes().subrange(4 * i, 4 * i + 4));
        assert(word_at(header.bytes(), i) == w[i]);
    }
}

impl DBPFHeader {
    /// Reads the header at the start of `data`.
    pub fn read(data: &[u8]) -> (r: Result<DBPFHeader, Error>)
        ensures
            r == parsed_header(data@),
    {
        if data.len() < HEADER_SIZE {
            return Err(Error::TruncatedInput);
        }
        if read_u32_le(data, 0) != MAGIC {
            return Err(Error::BadMagic);
        }
        if read_u32_le(data, 4) != MAJOR || read_u32_le(data, 8) != 0 || read_u32_le(data, 12) != 0
            || read_u32_le(data, 16) != 0 || read_u32_le(data, 32) != INDEX_MAJOR || read_u32_le(
            data,
            60,
        ) != INDEX_MINOR {
            return Err(Error::BadVersion);
        }
        Ok(
            DBPFHeader {
                maybe_flags: read_u32_le(data, 20),
                created_timestamp: read_u32_le(data, 24),
                modified_timestamp: read_u32_le(data, 28),
                index_entries: read_u32_le(data, 36),
                index_position_old: read_u32_le(data, 40),
                index_size: read_u32_le(data, 44),
                hole_index_count: read_u32_le(data, 48),
                hole_index_position: read_u32_le(data, 52),
                hole_index_size: read_u32_le(data, 56),
                index_position: read_u32_le(data, 64),
            },
        )
    }

    /// Appends the 96 bytes of the header.
    pub fn write(&self, out: &mut Vec<u8>)
        ensures
            final(out)@ == old(out)@ + self.bytes(),
    {
        let w: [u32; 24] = [
            MAGIC,
            MAJOR,
            0,
            0,
            0,
            self.maybe_flags,
            self.created_timestamp,
            self.modified_timestamp,
            INDEX_MAJOR,
            self.index_entries,
            self.index_position_old,
            self.index_size,
            self.hole_index_count,
            self.hole_index_position,
            self.hole_index_size,
            INDEX_MINOR,
            self.index_position,
            0,
            0,
            0,
            0,
            0,
            0,
            0,
        ];
        assert(w@ =~= self.words());
        assert(old(out)@ + words_le(w@.take(0)) =~= old(out)@);
        let mut i: usize = 0;
        while i < 24
            invariant
                i <= 24,
                w@.len() == 24,
                out@ == old(out)@ + words_le(w@.take(i as int)),
            decreases 24 - i,
        {
            write_u32_le(out, w[i]);
            proof {
                assert(w@.take(i + 1).drop_last() =~= w@.take(i as int));
                assert(out@ =~= old(out)@ + words_le(w@.take(i + 1)));
            }
            i += 1;
        }
        assert(w@.take(24) =~= w@);
    }
}

} // verus!
