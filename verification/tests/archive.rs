use sims3_rs::dbpf::{
    ChunkHandle, DBPFIndexEntry, DBPFReader, NeverReader, ReadSeek, SeekFrom, DBPF,
};
use sims3_rs::error::Error;

fn le(x: u32) -> [u8; 4] {
    x.to_le_bytes()
}

fn header(entries: u32, index_size: u32) -> Vec<u8> {
    let mut v = Vec::new();
    v.extend_from_slice(b"DBPF");
    for w in [2u32, 0, 0, 0, 0, 0, 0, 7, entries, 0, index_size, 0, 0, 0, 3, 96] {
        v.extend_from_slice(&le(w));
    }
    v.extend_from_slice(&[0u8; 28]);
    v
}

fn empty_archive() -> Vec<u8> {
    let mut v = header(0, 4);
    v.extend_from_slice(&le(0));
    v
}

fn hello_archive() -> Vec<u8> {
    let mut v = header(1, 36);
    v.extend_from_slice(&le(0xFF));
    for w in [0x015A_1849u32, 0, 0, 1, 132, 5, 5, 0] {
        v.extend_from_slice(&le(w));
    }
    v.extend_from_slice(b"HELLO");
    v
}

#[test]
fn empty_archive_is_100_bytes_and_round_trips() {
    let bytes = empty_archive();
    assert_eq!(bytes.len(), 100);
    let (reader, archive) = DBPFReader::parse(bytes.clone(), 1).unwrap();
    assert_eq!(archive.entries.len(), 0);
    assert_eq!(archive.write(&reader), Ok(bytes));
}

#[test]
fn new_archive_writes_the_empty_archive() {
    let archive = DBPF::new();
    assert_eq!(archive.write(&NeverReader::Unwritten), Ok(empty_archive()));
}

#[test]
fn single_uncompressed_entry() {
    let bytes = hello_archive();
    let (reader, archive) = DBPFReader::parse(bytes.clone(), 7).unwrap();
    assert_eq!(archive.entries.len(), 1);
    let entry = &archive.entries[0];
    assert_eq!(entry.resource_type, 0x015A_1849);
    assert_eq!(entry.resource_group, 0);
    assert_eq!(entry.instance, 1);
    assert!(!entry.unk1);
    assert_eq!(entry.unk2, 0);
    assert_eq!(entry.chunk.memsize(), 5);
    let mut r = entry.chunk.get_reader(&reader).unwrap();
    assert_eq!(r.read_to_end(), b"HELLO".to_vec());
    assert_eq!(archive.write(&reader), Ok(bytes));
}

fn entry(t: u32, g: u32, i: u64, chunk: ChunkHandle) -> DBPFIndexEntry {
    DBPFIndexEntry { resource_type: t, resource_group: g, instance: i, unk1: false, unk2: 0, chunk }
}

fn dirty(bytes: &[u8]) -> ChunkHandle {
    ChunkHandle::Dirty { decompressed: bytes.to_vec(), should_compress: false }
}

/// Two entries that differ in group, instance, offset and sizes, the second compressed.
fn mixed_archive() -> Vec<u8> {
    let stream = [0x00, 0xFB, 0x00, 0x00, 0x08, 0x0E, 0x01, b'A', b'B', 0xFC];
    // The mask shares the type and the high half of the instance: k = 2.
    let index_size = (1 + 2 + 6 * 2) * 4;
    let mut v = header(2, index_size);
    let first = 96 + index_size;
    v.extend_from_slice(&le(0b0000_0101));
    for w in [0x0166_038C, 0x9] {
        v.extend_from_slice(&le(w));
    }
    for w in [1, 0x11, first, 0x8000_0003, 3, 0x0007_0000] {
        v.extend_from_slice(&le(w));
    }
    for w in [2, 0x22, first + 3, stream.len() as u32, 8, 0x0000_FFFF] {
        v.extend_from_slice(&le(w));
    }
    v.extend_from_slice(b"xyz");
    v.extend_from_slice(&stream);
    v
}

#[test]
fn parse_reconstructs_the_fields() {
    let (_, archive) = DBPFReader::parse(mixed_archive(), 3).unwrap();
    assert_eq!(archive.entries.len(), 2);
    let a = &archive.entries[0];
    assert_eq!((a.resource_type, a.resource_group, a.instance), (0x0166_038C, 1, 0x9_0000_0011));
    assert!(a.unk1);
    assert_eq!(a.unk2, 7);
    assert!(matches!(
        a.chunk,
        ChunkHandle::Uncompressed { offset: 156, filesize: 3, brand: 3 }
    ));
    let b = &archive.entries[1];
    assert_eq!((b.resource_type, b.resource_group, b.instance), (0x0166_038C, 2, 0x9_0000_0022));
    assert!(!b.unk1);
    assert_eq!(b.unk2, 0);
    assert!(matches!(
        b.chunk,
        ChunkHandle::Compressed { offset: 159, filesize: 10, memsize: 8, decompressed: None, brand: 3 }
    ));
}

#[test]
fn entries_keep_the_order_of_the_index() {
    let (_, archive) = DBPFReader::parse(mixed_archive(), 3).unwrap();
    let groups: Vec<u32> = archive.entries.iter().map(|e| e.resource_group).collect();
    assert_eq!(groups, vec![1, 2]);
}

#[test]
fn compressed_chunk_is_decompressed_on_each_read() {
    let (reader, archive) = DBPFReader::parse(mixed_archive(), 3).unwrap();
    let chunk = &archive.entries[1].chunk;
    assert_eq!(chunk.memsize(), 8);
    let first = chunk.get_reader(&reader).unwrap().read_to_end();
    let second = chunk.get_reader(&reader).unwrap().read_to_end();
    assert_eq!(first, b"ABABABAB".to_vec());
    assert_eq!(first, second);
    assert_eq!(first.len(), chunk.memsize() as usize);
}

#[test]
fn memsize_is_the_length_of_what_the_reader_gives() {
    let (reader, archive) = DBPFReader::parse(mixed_archive(), 3).unwrap();
    for e in archive.entries.iter() {
        let bytes = e.chunk.get_reader(&reader).unwrap().read_to_end();
        assert_eq!(bytes.len(), e.chunk.memsize() as usize);
    }
    let d = dirty(b"12345");
    assert_eq!(d.memsize(), 5);
    assert_eq!(d.get_reader(&NeverReader::Unwritten).unwrap().read_to_end().len(), 5);
}

#[test]
fn parsing_never_decompresses() {
    // The stream of the compressed chunk is invalid; parsing does not notice.
    let mut bytes = mixed_archive();
    let at = bytes.len() - 9;
    bytes[at] = 0x00;
    let (reader, archive) = DBPFReader::parse(bytes, 3).unwrap();
    let r = archive.entries[1].chunk.get_reader(&reader);
    assert_eq!(
        r.err(),
        Some(Error::CompressionFailed(sims3_rs::refpack::decompress::Error::InvalidMagic))
    );
}

#[test]
fn handle_is_refused_by_a_reader_of_another_brand() {
    let (_, archive) = DBPFReader::parse(hello_archive(), 1).unwrap();
    let (other, _) = DBPFReader::parse(hello_archive(), 2).unwrap();
    assert_eq!(other.brand_id(), 2);
    assert_eq!(archive.entries[0].chunk.get_reader(&other).err(), Some(Error::BrandMismatch));
}

#[test]
fn file_chunk_needs_a_file() {
    let chunk = ChunkHandle::Uncompressed { offset: 0, filesize: 1, brand: 0 };
    assert_eq!(chunk.get_reader(&NeverReader::Unwritten).err(), Some(Error::NoReader));
}

#[test]
fn chunk_that_runs_past_the_file_is_cut_short() {
    let (reader, _) = DBPFReader::parse(hello_archive(), 1).unwrap();
    let len = reader.data().len() as u32;
    let chunk = ChunkHandle::Uncompressed { offset: len - 2, filesize: 10, brand: 1 };
    assert_eq!(chunk.get_reader(&reader).unwrap().read_to_end(), b"LO".to_vec());
    let chunk = ChunkHandle::Uncompressed { offset: len + 5, filesize: 10, brand: 1 };
    assert_eq!(chunk.get_reader(&reader).unwrap().read_to_end(), Vec::<u8>::new());
}

#[test]
fn header_errors() {
    assert_eq!(DBPFReader::parse(vec![], 0).err(), Some(Error::TruncatedInput));
    assert_eq!(DBPFReader::parse(b"DBPF".to_vec(), 0).err(), Some(Error::TruncatedInput));
    let mut bytes = empty_archive();
    bytes[0] = b'X';
    assert_eq!(DBPFReader::parse(bytes, 0).err(), Some(Error::BadMagic));
    for at in [4, 8, 12, 16, 32, 60] {
        let mut bytes = empty_archive();
        bytes[at] = bytes[at].wrapping_add(1);
        assert_eq!(DBPFReader::parse(bytes, 0).err(), Some(Error::BadVersion));
    }
}

#[test]
fn index_errors() {
    // The index position is behind the end of the file.
    let mut bytes = empty_archive();
    bytes[64] = 101;
    assert_eq!(DBPFReader::parse(bytes, 0).err(), Some(Error::TruncatedInput));
    // The mask is missing.
    let bytes = header(0, 4);
    assert_eq!(DBPFReader::parse(bytes, 0).err(), Some(Error::TruncatedInput));
    // One entry is announced, and none is there.
    let mut bytes = header(1, 36);
    bytes.extend_from_slice(&le(0));
    assert_eq!(DBPFReader::parse(bytes, 0).err(), Some(Error::TruncatedInput));
    // The index size of the header is not that of the index.
    let mut bytes = header(0, 8);
    bytes.extend_from_slice(&le(0));
    assert_eq!(DBPFReader::parse(bytes, 0).err(), Some(Error::IndexMismatch));
}

#[test]
fn index_may_stand_anywhere_in_the_file() {
    let mut bytes = header(1, 36);
    bytes[64] = 101;
    bytes.extend_from_slice(b"HELLO");
    bytes.extend_from_slice(&le(0xFF));
    for w in [0x015A_1849u32, 0, 0, 1, 96, 5, 5, 0] {
        bytes.extend_from_slice(&le(w));
    }
    let (reader, archive) = DBPFReader::parse(bytes, 1).unwrap();
    let got = archive.entries[0].chunk.get_reader(&reader).unwrap().read_to_end();
    assert_eq!(got, b"HELLO".to_vec());
    // Written again, the index follows the header.
    assert_eq!(archive.write(&reader), Ok(hello_archive()));
}

#[test]
fn dirty_archive_is_written_uncompressed() {
    let mut archive = DBPF::new();
    archive.maybe_flags = 0x0102_0304;
    archive.created_timestamp = 11;
    archive.modified_timestamp = 22;
    archive.entries.push(entry(0x015A_1849, 0, 1, dirty(b"HELLO")));
    archive.entries.push(DBPFIndexEntry {
        resource_type: 0x015A_1849,
        resource_group: 0,
        instance: 0x1_0000_0002,
        unk1: true,
        unk2: 0xBEEF,
        chunk: ChunkHandle::Dirty { decompressed: b"WORLD!".to_vec(), should_compress: true },
    });
    let bytes = archive.write(&NeverReader::Unwritten).unwrap();
    // Shared: type, group, and, by chance, nothing else: k = 2, n = 2.
    let index_size = (1 + 2 + 6 * 2) * 4;
    let mut want = Vec::new();
    want.extend_from_slice(b"DBPF");
    for w in [2u32, 0, 0, 0, 0x0102_0304, 11, 22, 7, 2, 0, index_size, 0, 0, 0, 3, 96] {
        want.extend_from_slice(&le(w));
    }
    want.extend_from_slice(&[0u8; 28]);
    let first = 96 + index_size;
    for w in [0b0000_0011, 0x015A_1849, 0] {
        want.extend_from_slice(&le(w));
    }
    for w in [0, 1, first, 5, 5, 0] {
        want.extend_from_slice(&le(w));
    }
    for w in [1, 2, first + 5, 0x8000_0006, 6, 0xBEEF_0000] {
        want.extend_from_slice(&le(w));
    }
    want.extend_from_slice(b"HELLOWORLD!");
    assert_eq!(bytes, want);

    let (reader, parsed) = DBPFReader::parse(bytes.clone(), 5).unwrap();
    assert_eq!(parsed.maybe_flags, 0x0102_0304);
    assert_eq!(parsed.created_timestamp, 11);
    assert_eq!(parsed.modified_timestamp, 22);
    assert_eq!(parsed.entries[1].instance, 0x1_0000_0002);
    assert!(parsed.entries[1].unk1);
    assert_eq!(parsed.entries[1].unk2, 0xBEEF);
    assert_eq!(
        parsed.entries[1].chunk.get_reader(&reader).unwrap().read_to_end(),
        b"WORLD!".to_vec()
    );
    assert_eq!(parsed.write(&reader), Ok(bytes));
}

#[test]
fn write_fails_with_the_error_of_the_first_unreadable_chunk() {
    let mut archive = DBPF::new();
    archive.entries.push(entry(1, 1, 1, dirty(b"a")));
    archive.entries.push(entry(
        1,
        1,
        2,
        ChunkHandle::Uncompressed { offset: 0, filesize: 1, brand: 9 },
    ));
    assert_eq!(archive.write(&NeverReader::Unwritten), Err(Error::NoReader));
}

#[test]
fn write_refuses_what_does_not_fit() {
    let mut archive = DBPF::new();
    archive.entries.push(entry(
        1,
        1,
        1,
        ChunkHandle::Uncompressed { offset: 0, filesize: 0x8000_0000, brand: 9 },
    ));
    assert_eq!(archive.write(&NeverReader::Unwritten), Err(Error::TooLarge));
    let mut archive = DBPF::new();
    for i in 0..3 {
        archive.entries.push(entry(
            1,
            1,
            i,
            ChunkHandle::Uncompressed { offset: 0, filesize: 0x7FFF_FFFF, brand: 9 },
        ));
    }
    assert_eq!(archive.write(&NeverReader::Unwritten), Err(Error::TooLarge));
}

#[test]
fn reader_reads_in_pieces_and_seeks_within_the_chunk() {
    let (reader, archive) = DBPFReader::parse(hello_archive(), 1).unwrap();
    let mut r = archive.entries[0].chunk.get_reader(&reader).unwrap();
    assert_eq!(r.read(2), b"HE".to_vec());
    assert_eq!(r.read(10), b"LLO".to_vec());
    assert_eq!(r.read(10), Vec::<u8>::new());
    assert_eq!(r.seek(SeekFrom::Start(1)), Ok(1));
    assert_eq!(r.read(1), b"E".to_vec());
    assert_eq!(r.seek(SeekFrom::Current(-2)), Ok(0));
    assert_eq!(r.seek(SeekFrom::End(-1)), Ok(4));
    assert_eq!(r.read_to_end(), b"O".to_vec());
    assert_eq!(r.seek(SeekFrom::End(3)), Ok(8));
    assert_eq!(r.read_to_end(), Vec::<u8>::new());
    assert_eq!(r.seek(SeekFrom::Current(-9)), Err(Error::InvalidSeek));
    assert_eq!(r.seek(SeekFrom::Start(u64::MAX)), Ok(u64::MAX));
    assert_eq!(r.seek(SeekFrom::Current(1)), Err(Error::InvalidSeek));
    assert_eq!(r.seek(SeekFrom::Current(i64::MIN)), Ok(u64::MAX - (1 << 63)));
}

#[test]
fn stored_bytes_are_opened_without_a_reader() {
    let bytes = mixed_archive();
    let (_, archive) = DBPFReader::parse(bytes.clone(), 3).unwrap();
    let plain = &archive.entries[0].chunk;
    let range = plain.stored_range().unwrap();
    assert_eq!((range.offset, range.size, range.brand), (156, 3, 3));
    let stored = &bytes[range.offset as usize..(range.offset + range.size) as usize];
    assert_eq!(plain.open_stored(stored).unwrap().read_to_end(), b"xyz".to_vec());

    let packed = &archive.entries[1].chunk;
    let range = packed.stored_range().unwrap();
    assert_eq!((range.offset, range.size, range.brand), (159, 10, 3));
    let stored = &bytes[range.offset as usize..(range.offset + range.size) as usize];
    assert_eq!(packed.open_stored(stored).unwrap().read_to_end(), b"ABABABAB".to_vec());
    assert_eq!(
        packed.open_stored(&stored[..9]).unwrap().read_to_end(),
        b"ABABABAB".to_vec()
    );
    assert_eq!(
        packed.open_stored(&stored[..6]).err(),
        Some(Error::CompressionFailed(sims3_rs::refpack::decompress::Error::ExpectedAnotherByte))
    );

    let d = dirty(b"held");
    assert_eq!(d.stored_range(), None);
    assert_eq!(d.open_stored(b"ignored").unwrap().read_to_end(), b"held".to_vec());
}

#[test]
fn index_is_parsed_apart_from_the_file() {
    let bytes = mixed_archive();
    let header = sims3_rs::dbpf::header::DBPFHeader::read(&bytes).unwrap();
    assert_eq!(header.index_entries, 2);
    assert_eq!(header.index_position, 96);
    assert_eq!(header.index_size, 60);
    let index = &bytes[96..96 + 60];
    let archive = DBPF::<NeverReader>::read_parts(&header, index, 4).unwrap();
    assert_eq!(archive.entries.len(), 2);
    assert_eq!(archive.entries[1].instance, 0x9_0000_0022);
    assert!(matches!(
        archive.entries[0].chunk,
        ChunkHandle::Uncompressed { offset: 156, filesize: 3, brand: 4 }
    ));
    assert_eq!(
        DBPF::<NeverReader>::read_parts(&header, &index[..59], 4).err(),
        Some(Error::TruncatedInput)
    );
}

#[test]
fn header_round_trips() {
    let bytes = mixed_archive();
    let header = sims3_rs::dbpf::header::DBPFHeader::read(&bytes).unwrap();
    let mut out = Vec::new();
    header.write(&mut out);
    assert_eq!(out, bytes[..96].to_vec());
}
