//! What holds of the archive engine as a whole.

use crate::dbpf::entries_of_raw;
use crate::dbpf::entry_of_raw;
use crate::dbpf::filetypes::nmap::names_chars;
use crate::dbpf::fits;
use crate::dbpf::gathers;
use crate::dbpf::header::lemma_header_round_trip;
use crate::dbpf::header::parsed_header;
use crate::dbpf::header::HEADER_SIZE;
use crate::dbpf::index::common_template;
use crate::dbpf::index::count_present;
use crate::dbpf::index::index_bytes;
use crate::dbpf::index::index_size;
use crate::dbpf::index::follows_template;
use crate::dbpf::index::lemma_index_bytes_len;
use crate::dbpf::index::lemma_index_round_trip;
use crate::dbpf::index::parsed_index;
use crate::dbpf::index::IndexEntry;
use crate::dbpf::index::read_entry;
use crate::dbpf::index::template_mask;
use crate::dbpf::layout_mask;
use crate::dbpf::lemma_layout_mask;
use crate::dbpf::parsed;
use crate::dbpf::raw_of;
use crate::dbpf::reads;
use crate::dbpf::sizes_sum;
use crate::dbpf::written;
use crate::dbpf::written_entries;
use crate::dbpf::written_header;
use crate::dbpf::ArchiveView;
use crate::dbpf::ChunkReader;
use crate::dbpf::ChunkView;
use crate::dbpf::EntryView;
use crate::dbpf::ReadSeek;
use crate::error::Error;
use std::collections::BTreeMap;
use vstd::prelude::*;

verus! {

/// The index that is written for an archive has the size that its own mask
/// and the number of entries give, `(1 + k + (8 - k) * n) * 4` bytes for `k`
/// fields in the template and `n` entries, and the header names that size.
pub proof fn lemma_written_index_size(archive: ArchiveView)
    requires
        fits(archive.entries),
    ensures
        ({
            let stored = written_entries(archive.entries);
            let mask = template_mask(common_template(stored));
            let k = count_present(mask);
            let n = archive.entries.len() as int;
            &&& index_bytes(common_template(stored), stored).len() == (1 + k + (8 - k) * n) * 4
            &&& written_header(archive).index_size == (1 + k + (8 - k) * n) * 4
            &&& written_header(archive).index_entries == n
        }),
{
    let entries = archive.entries;
    let n = entries.len() as int;
    let stored = written_entries(entries);
    crate::dbpf::index::lemma_index_size_bounds(layout_mask(entries), n);
    crate::dbpf::lemma_sizes_sum_monotone(entries, 0, n);
    lemma_layout_mask(entries, HEADER_SIZE + index_size(layout_mask(entries), n));
    lemma_index_bytes_len(common_template(stored), stored);
    assert(stored.len() == n);
    assert(template_mask(common_template(stored)) == layout_mask(entries));
}

/// The entries of a parsed archive stand in the order of the index: entry
/// `j` is what entry `j` of the index stands for.
pub proof fn lemma_parsed_order(data: Seq<u8>, brand: u64, j: int)
    requires
        parsed(data, brand).is_ok(),
        0 <= j < parsed(data, brand).unwrap().entries.len(),
    ensures
        parsed(data, brand).unwrap().entries.len() == parsed_header(data).unwrap().index_entries,
        parsed(data, brand).unwrap().entries[j] == entry_of_raw(
            read_entry(data.skip(parsed_header(data).unwrap().index_position as int), j),
            brand,
        ),
{
}

/// Asking a handle for a reader twice, under the same context, gives the
/// same: two readers over the same bytes, or the same error twice.
pub proof fn lemma_get_reader_repeatable<'a, 'b>(
    chunk: ChunkView,
    source: Seq<u8>,
    ctx_brand: Option<u64>,
    first: Result<ChunkReader<'a>, Error>,
    second: Result<ChunkReader<'b>, Error>,
)
    requires
        reads(chunk, source, ctx_brand, first),
        reads(chunk, source, ctx_brand, second),
    ensures
        first.is_ok() == second.is_ok(),
        first.is_ok() ==> first.unwrap().stream() == second.unwrap().stream()
            && first.unwrap().position() == second.unwrap().position(),
        first.is_err() ==> first.unwrap_err() == second.unwrap_err(),
{
}

/// The reader of a dirty chunk of less than 2^32 bytes, and that of an
/// uncompressed chunk that lies within the file, give as many bytes as
/// `memsize` says.
pub proof fn lemma_memsize_is_content_len(chunk: ChunkView, source: Seq<u8>, ctx_brand: Option<u64>)
    requires
        chunk.content(source, ctx_brand).is_ok(),
        match chunk {
            ChunkView::Dirty { decompressed, .. } => decompressed.len() <= u32::MAX,
            ChunkView::Uncompressed { offset, filesize, .. } => offset + filesize <= source.len(),
            ChunkView::Compressed { .. } => false,
        },
    ensures
        chunk.content(source, ctx_brand).unwrap().len() == chunk.memsize(),
{
}

/// Gathering the names of an archive twice, under the same context, gives
/// equal mappings, or the same error twice.
pub proof fn lemma_gather_names_idempotent(
    archive: ArchiveView,
    source: Seq<u8>,
    ctx_brand: Option<u64>,
    first: Result<BTreeMap<u64, String>, Error>,
    second: Result<BTreeMap<u64, String>, Error>,
)
    requires
        gathers(archive, source, ctx_brand, first),
        gathers(archive, source, ctx_brand, second),
    ensures
        first.is_ok() == second.is_ok(),
        first.is_ok() ==> names_chars(first.unwrap()@) == names_chars(second.unwrap()@),
        first.is_err() ==> first.unwrap_err() == second.unwrap_err(),
{
}

/// Entries follow the template of what they share.
pub proof fn lemma_follows_common_template(entries: Seq<IndexEntry>)
    ensures
        follows_template(common_template(entries), entries),
{
    let template = common_template(entries);
    assert forall|j: int, i: int|
        0 <= j < entries.len() && 0 <= i < 8 && template[i].is_some() implies (#[trigger] entries[j].words()[i])
        == template[i].unwrap() by {
        assert(crate::dbpf::index::agree(entries, i));
    }
}

/// What an entry is read back as after it was written with its chunk at
/// `offset`: its type, group, instance and unknown fields are kept. The
/// chunk has become a chunk of the file: compressed with its sizes where it
/// was compressed, and else uncompressed with its stored size.
pub proof fn lemma_entry_read_back(entry: EntryView, offset: u32, brand: u64)
    requires
        entry.chunk.stored_size() < 0x8000_0000,
    ensures
        ({
            let back = entry_of_raw(raw_of(entry, offset), brand);
            &&& back.resource_type == entry.resource_type
            &&& back.resource_group == entry.resource_group
            &&& back.instance == entry.instance
            &&& back.unk1 == entry.unk1
            &&& back.unk2 == entry.unk2
            &&& back.chunk == match entry.chunk {
                ChunkView::Compressed { filesize, memsize, .. } => ChunkView::Compressed {
                    offset,
                    filesize,
                    memsize,
                    decompressed: None,
                    brand,
                },
                _ => ChunkView::Uncompressed {
                    offset,
                    filesize: entry.chunk.stored_size() as u32,
                    brand,
                },
            }
        }),
{
}

/// What parsing gives where the header and the index are known.
proof fn lemma_parsed_of_parts(
    bytes: Seq<u8>,
    brand: u64,
    header: crate::dbpf::header::DBPFHeader,
    mask: u32,
    stored: Seq<IndexEntry>,
)
    requires
        parsed_header(bytes) == Ok::<crate::dbpf::header::DBPFHeader, Error>(header),
        header.index_position <= bytes.len(),
        parsed_index(bytes.skip(header.index_position as int), header.index_entries as nat) == Ok::<
            (u32, Seq<IndexEntry>),
            Error,
        >((mask, stored)),
        header.index_size == index_size(mask, header.index_entries as int),
    ensures
        parsed(bytes, brand) == Ok::<ArchiveView, Error>(
            ArchiveView {
                maybe_flags: header.maybe_flags,
                created_timestamp: header.created_timestamp,
                modified_timestamp: header.modified_timestamp,
                entries: entries_of_raw(stored, brand),
            },
        ),
{
}

/// The three parts of a file that was written.
proof fn lemma_written_parts(archive: ArchiveView, source: Seq<u8>, ctx_brand: Option<u64>)
    requires
        written(archive, source, ctx_brand).is_ok(),
    ensures
        fits(archive.entries),
        crate::dbpf::payload(archive.entries, source, ctx_brand).is_ok(),
        written(archive, source, ctx_brand).unwrap() == written_header(archive).bytes() + (
        index_bytes(
            common_template(written_entries(archive.entries)),
            written_entries(archive.entries),
        ) + crate::dbpf::payload(archive.entries, source, ctx_brand).unwrap()),
{
    let head = written_header(archive).bytes();
    let index = index_bytes(
        common_template(written_entries(archive.entries)),
        written_entries(archive.entries),
    );
    let chunks = crate::dbpf::payload(archive.entries, source, ctx_brand).unwrap();
    assert(head + index + chunks =~= head + (index + chunks));
}

/// The entries that are written stand at the places of the layout.
pub proof fn lemma_written_entries(archive: ArchiveView, j: int)
    requires
        fits(archive.entries),
        0 <= j < archive.entries.len(),
    ensures
        written_entries(archive.entries).len() == archive.entries.len(),
        written_entries(archive.entries)[j] == raw_of(
            archive.entries[j],
            (HEADER_SIZE + written_header(archive).index_size + sizes_sum(archive.entries, j)) as u32,
        ),
{
    let n = archive.entries.len() as int;
    crate::dbpf::index::lemma_index_size_bounds(layout_mask(archive.entries), n);
    crate::dbpf::lemma_sizes_sum_monotone(archive.entries, 0, n);
}

/// Parsing a file that was written gives the archive back: the same header
/// words and as many entries, in the same order, each read back from the
/// entry that was written for it.
#[verifier::spinoff_prover]
pub proof fn lemma_parse_of_written(
    archive: ArchiveView,
    source: Seq<u8>,
    ctx_brand: Option<u64>,
    brand: u64,
)
    requires
        written(archive, source, ctx_brand).is_ok(),
    ensures
        parsed(written(archive, source, ctx_brand).unwrap(), brand) == Ok::<ArchiveView, Error>(
            ArchiveView {
                maybe_flags: archive.maybe_flags,
                created_timestamp: archive.created_timestamp,
                modified_timestamp: archive.modified_timestamp,
                entries: entries_of_raw(written_entries(archive.entries), brand),
            },
        ),
{
    let header = written_header(archive);
    let stored = written_entries(archive.entries);
    let template = common_template(stored);
    let chunks = crate::dbpf::payload(archive.entries, source, ctx_brand).unwrap();
    let index = index_bytes(template, stored);
    let bytes = written(archive, source, ctx_brand).unwrap();
    lemma_written_parts(archive, source, ctx_brand);
    lemma_written_index_size(archive);
    lemma_follows_common_template(stored);
    lemma_header_round_trip(header, index + chunks);
    lemma_index_round_trip(template, stored, chunks);
    assert(bytes.skip(HEADER_SIZE as int) =~= index + chunks);
    lemma_parsed_of_parts(bytes, brand, header, template_mask(template), stored);
}

/// Whether each chunk of `entries` is uncompressed or dirty and gives as
/// many bytes as the layout gives it room, under a context with the file
/// `source` and the brand `ctx_brand`.
pub open spec fn chunks_whole(entries: Seq<EntryView>, source: Seq<u8>, ctx_brand: Option<u64>)
    -> bool {
    forall|i: int|
        0 <= i < entries.len() ==> !((#[trigger] entries[i]).chunk is Compressed)
            && entries[i].chunk.content(source, ctx_brand).is_ok() && entries[i].chunk.content(
            source,
            ctx_brand,
        ).unwrap().len() == entries[i].chunk.stored_size()
}

/// The bytes of whole chunks stand one behind the other, each at the sum of
/// the sizes before it.
proof fn lemma_payload_piece(
    entries: Seq<EntryView>,
    source: Seq<u8>,
    ctx_brand: Option<u64>,
    m: int,
    j: int,
)
    requires
        chunks_whole(entries, source, ctx_brand),
        0 <= j < m <= entries.len(),
    ensures
        crate::dbpf::payload(entries.take(m), source, ctx_brand).is_ok(),
        crate::dbpf::payload(entries.take(m), source, ctx_brand).unwrap().len() == sizes_sum(
            entries,
            m,
        ),
        0 <= sizes_sum(entries, j) <= sizes_sum(entries, j + 1) <= sizes_sum(entries, m),
        crate::dbpf::payload(entries.take(m), source, ctx_brand).unwrap().subrange(
            sizes_sum(entries, j),
            sizes_sum(entries, j + 1),
        ) == entries[j].chunk.content(source, ctx_brand).unwrap(),
    decreases m,
{
    let front = entries.take(m - 1);
    let last = entries[m - 1];
    assert(entries.take(m).drop_last() =~= front);
    assert(entries.take(m).last() == last);
    crate::dbpf::lemma_sizes_sum_monotone(entries, j + 1, m);
    crate::dbpf::lemma_sizes_sum_monotone(entries, j, j + 1);
    let bytes = last.chunk.content(source, ctx_brand).unwrap();
    if m - 1 > 0 {
        if j < m - 1 {
            lemma_payload_piece(entries, source, ctx_brand, m - 1, j);
        } else {
            lemma_payload_piece(entries, source, ctx_brand, m - 1, 0);
        }
        let before = crate::dbpf::payload(front, source, ctx_brand).unwrap();
        assert(crate::dbpf::payload(entries.take(m), source, ctx_brand) == Ok::<Seq<u8>, Error>(
            before + bytes,
        ));
        if j < m - 1 {
            assert((before + bytes).subrange(sizes_sum(entries, j), sizes_sum(entries, j + 1))
                =~= before.subrange(sizes_sum(entries, j), sizes_sum(entries, j + 1)));
        } else {
            assert((before + bytes).subrange(sizes_sum(entries, j), sizes_sum(entries, j + 1))
                =~= bytes);
        }
    } else {
        assert(front =~= Seq::<EntryView>::empty());
        assert(crate::dbpf::payload(front, source, ctx_brand) == Ok::<Seq<u8>, Error>(
            Seq::empty(),
        ));
        assert(crate::dbpf::payload(entries.take(m), source, ctx_brand) == Ok::<Seq<u8>, Error>(
            Seq::<u8>::empty() + bytes,
        ));
        assert((Seq::<u8>::empty() + bytes).subrange(0, sizes_sum(entries, 1)) =~= bytes);
    }
}

/// A part of the third of three sequences is that part of the whole.
proof fn lemma_third_part(head: Seq<u8>, index: Seq<u8>, chunks: Seq<u8>, a: int, b: int)
    requires
        0 <= a <= b <= chunks.len(),
    ensures
        (head + (index + chunks)).subrange(head.len() + index.len() + a, head.len() + index.len() + b)
            == chunks.subrange(a, b),
        (head + (index + chunks)).len() == head.len() + index.len() + chunks.len(),
{
    assert((head + (index + chunks)).subrange(
        head.len() + index.len() + a,
        head.len() + index.len() + b,
    ) =~= chunks.subrange(a, b));
}

/// The reader of an uncompressed chunk that lies within the file gives the
/// bytes of the file at the place of the chunk.
proof fn lemma_window_within(bytes: Seq<u8>, brand: u64, offset: u32, filesize: u32)
    requires
        offset + filesize <= bytes.len(),
    ensures
        (ChunkView::Uncompressed { offset, filesize, brand }).content(bytes, Some(brand)) == Ok::<
            Seq<u8>,
            Error,
        >(bytes.subrange(offset as int, offset + filesize)),
{
}

/// The file that is written where the layout fits and the chunks can be
/// read.
proof fn lemma_written_of_parts(archive: ArchiveView, source: Seq<u8>, ctx_brand: Option<u64>)
    requires
        fits(archive.entries),
        crate::dbpf::payload(archive.entries, source, ctx_brand).is_ok(),
    ensures
        written(archive, source, ctx_brand) == Ok::<Seq<u8>, Error>(
            written_header(archive).bytes() + (index_bytes(
                common_template(written_entries(archive.entries)),
                written_entries(archive.entries),
            ) + crate::dbpf::payload(archive.entries, source, ctx_brand).unwrap()),
        ),
{
    let head = written_header(archive).bytes();
    let index = index_bytes(
        common_template(written_entries(archive.entries)),
        written_entries(archive.entries),
    );
    let chunks = crate::dbpf::payload(archive.entries, source, ctx_brand).unwrap();
    assert(head + index + chunks =~= head + (index + chunks));
}

/// The sizes that the header and the index of a written file have.
proof fn lemma_written_sizes(archive: ArchiveView)
    requires
        fits(archive.entries),
    ensures
        written_header(archive).bytes().len() == HEADER_SIZE,
        index_bytes(
            common_template(written_entries(archive.entries)),
            written_entries(archive.entries),
        ).len() == written_header(archive).index_size,
        HEADER_SIZE + written_header(archive).index_size + sizes_sum(
            archive.entries,
            archive.entries.len() as int,
        ) <= u32::MAX,
{
    lemma_written_index_size(archive);
    lemma_header_round_trip(written_header(archive), Seq::empty());
    crate::dbpf::index::lemma_index_size_bounds(
        layout_mask(archive.entries),
        archive.entries.len() as int,
    );
}

/// A chunk that was written whole is read back as it was: the reader of
/// entry `j` of the archive parsed from the written file gives, from that
/// file, the bytes that the reader of entry `j` gave when it was written.
#[verifier::spinoff_prover]
pub proof fn lemma_written_chunk_reads_back(
    archive: ArchiveView,
    source: Seq<u8>,
    ctx_brand: Option<u64>,
    brand: u64,
    j: int,
)
    requires
        fits(archive.entries),
        chunks_whole(archive.entries, source, ctx_brand),
        0 <= j < archive.entries.len(),
    ensures
        written(archive, source, ctx_brand).is_ok(),
        entry_of_raw(written_entries(archive.entries)[j], brand).chunk.content(
            written(archive, source, ctx_brand).unwrap(),
            Some(brand),
        ) == archive.entries[j].chunk.content(source, ctx_brand),
{
    let entries = archive.entries;
    let n = entries.len() as int;
    let head = written_header(archive).bytes();
    let stored = written_entries(entries);
    let index = index_bytes(common_template(stored), stored);
    lemma_payload_piece(entries, source, ctx_brand, n, j);
    assert(entries.take(n) =~= entries);
    let chunks = crate::dbpf::payload(entries, source, ctx_brand).unwrap();
    lemma_written_of_parts(archive, source, ctx_brand);
    lemma_written_sizes(archive);
    lemma_written_entries(archive, j);
    let bytes = head + (index + chunks);
    let a = sizes_sum(entries, j);
    let b = sizes_sum(entries, j + 1);
    let from = HEADER_SIZE + written_header(archive).index_size + a;
    lemma_third_part(head, index, chunks, a, b);
    let size = entries[j].chunk.stored_size();
    assert(b == a + size);
    lemma_entry_read_back(entries[j], from as u32, brand);
    lemma_window_within(bytes, brand, from as u32, size as u32);
    let back = entry_of_raw(written_entries(entries)[j], brand).chunk;
    assert(written(archive, source, ctx_brand) == Ok::<Seq<u8>, Error>(bytes));
    assert(back == (ChunkView::Uncompressed { offset: from as u32, filesize: size as u32, brand }));
    assert(back.content(bytes, Some(brand)) == Ok::<Seq<u8>, Error>(
        bytes.subrange(from, from + size),
    ));
    assert(bytes.subrange(from, from + size) == chunks.subrange(a, b));
    assert(chunks.subrange(a, b) == entries[j].chunk.content(source, ctx_brand).unwrap());
    assert(entries[j].chunk.content(source, ctx_brand).is_ok());
}

/// Parsing looks at the header and the index, and at no byte of a chunk:
/// a file that has the header and the index of a file that can be parsed is
/// parsed to the same archive, whatever else it holds.
pub proof fn lemma_parse_ignores_chunks(a: Seq<u8>, b: Seq<u8>, brand: u64)
    requires
        parsed(a, brand).is_ok(),
        HEADER_SIZE <= b.len(),
        a.take(HEADER_SIZE as int) == b.take(HEADER_SIZE as int),
        ({
            let header = parsed_header(a).unwrap();
            let start = header.index_position as int;
            &&& start + header.index_size <= b.len()
            &&& a.subrange(start, start + header.index_size) == b.subrange(
                start,
                start + header.index_size,
            )
        }),
    ensures
        parsed(b, brand) == parsed(a, brand),
{
    let header = parsed_header(a).unwrap();
    let start = header.index_position as int;
    let size = header.index_size as int;
    assert forall|p: int| 0 <= p < 24 implies crate::util::word_at(a, p) == crate::util::word_at(
        b,
        p,
    ) by {
        assert(a.subrange(4 * p, 4 * p + 4) =~= a.take(HEADER_SIZE as int).subrange(
            4 * p,
            4 * p + 4,
        ));
        assert(b.subrange(4 * p, 4 * p + 4) =~= b.take(HEADER_SIZE as int).subrange(
            4 * p,
            4 * p + 4,
        ));
    }
    assert(parsed_header(b) == parsed_header(a));
    let ia = a.skip(start);
    let ib = b.skip(start);
    assert(ia.take(size) =~= a.subrange(start, start + size));
    assert(ib.take(size) =~= b.subrange(start, start + size));
    crate::dbpf::index::lemma_parsed_index_of_front(ia, ib, header.index_entries as nat);
}

} // verus!
