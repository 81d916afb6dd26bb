//! Writing the archive that was parsed from a file gives the file back,
//! where the file is laid out as this crate lays archives out.

use crate::dbpf::entries_of_raw;
use crate::dbpf::entry_of_raw;
use crate::dbpf::fits;
use crate::dbpf::header::parsed_header;
use crate::dbpf::header::DBPFHeader;
use crate::dbpf::header::HEADER_SIZE;
use crate::dbpf::index::common_template;
use crate::dbpf::index::count_present;
use crate::dbpf::index::entries_words;
use crate::dbpf::index::field_slot;
use crate::dbpf::index::index_bytes;
use crate::dbpf::index::index_size;
use crate::dbpf::index::index_words;
use crate::dbpf::index::lemma_index_size_bounds;
use crate::dbpf::index::lemma_mask_of_flags;
use crate::dbpf::index::lemma_rank_bounds;
use crate::dbpf::index::mask_has;
use crate::dbpf::index::own_words;
use crate::dbpf::index::rank;
use crate::dbpf::index::read_entry;
use crate::dbpf::index::template_mask;
use crate::dbpf::index::template_words;
use crate::dbpf::index::IndexEntry;
use crate::dbpf::laid_out;
use crate::dbpf::layout_mask;
use crate::dbpf::lemma_layout_mask;
use crate::dbpf::parsed;
use crate::dbpf::payload;
use crate::dbpf::raw_of;
use crate::dbpf::sizes_sum;
use crate::dbpf::written;
use crate::dbpf::written_entries;
use crate::dbpf::written_header;
use crate::dbpf::ChunkView;
use crate::dbpf::EntryView;
use crate::error::Error;
use crate::util::le_words;
use crate::util::lemma_words_le_of_le_words;
use crate::util::word_at;
use vstd::prelude::*;

verus! {

/// The entries of the index of `count` entries whose bytes are `index`.
pub open spec fn stored_entries(index: Seq<u8>, count: nat) -> Seq<IndexEntry> {
    Seq::new(count, |j: int| read_entry(index, j))
}

/// The file sizes of the first `j` of the stored entries `raw`, added up.
pub open spec fn stored_sum(raw: Seq<IndexEntry>, j: int) -> int
    decreases j,
{
    if j <= 0 {
        0
    } else {
        stored_sum(raw, j - 1) + raw[j - 1].filesize_unk1.filesize_of()
    }
}

/// Whether the file `data` is laid out as this crate lays archives out.
///
/// The index follows the header, and the header names no older index and no
/// holes and ends in zeros. The mask puts exactly those fields into the
/// template in which all entries agree. No chunk is marked as compressed,
/// each has its file size as its decompressed size, and the chunks stand one
/// behind the other, from the end of the index to the end of the file.
pub open spec fn canonical(data: Seq<u8>) -> bool {
    let header = parsed_header(data).unwrap();
    let index = data.skip(HEADER_SIZE as int);
    let raw = stored_entries(index, header.index_entries as nat);
    &&& parsed_header(data).is_ok()
    &&& header.index_position == HEADER_SIZE
    &&& header.index_position_old == 0
    &&& header.hole_index_count == 0
    &&& header.hole_index_position == 0
    &&& header.hole_index_size == 0
    &&& forall|i: int| 17 <= i < 24 ==> #[trigger] word_at(data, i) == 0
    &&& HEADER_SIZE + 4 <= data.len() <= u32::MAX
    &&& word_at(index, 0) == template_mask(common_template(raw))
    &&& forall|j: int|
        0 <= j < raw.len() ==> {
            &&& (#[trigger] raw[j]).compressed_unk2.0 == 0
            &&& raw[j].memsize == raw[j].filesize_unk1.filesize_of()
            &&& raw[j].chunk_offset == HEADER_SIZE + header.index_size + stored_sum(raw, j)
        }
    &&& data.len() == HEADER_SIZE + header.index_size + stored_sum(raw, raw.len() as int)
}

/// A stored entry of an uncompressed chunk, with its file size as its
/// decompressed size, is the stored entry of what it stands for.
pub proof fn lemma_raw_round_trip(r: IndexEntry, brand: u64)
    requires
        r.compressed_unk2.0 == 0,
        r.memsize == r.filesize_unk1.filesize_of(),
    ensures
        raw_of(entry_of_raw(r, brand), r.chunk_offset) == r,
        entry_of_raw(r, brand).chunk == (ChunkView::Uncompressed {
            offset: r.chunk_offset,
            filesize: r.filesize_unk1.filesize_of(),
            brand,
        }),
{
    let e = entry_of_raw(r, brand);
    let back = raw_of(e, r.chunk_offset);
    assert(back.instance_hi == r.instance_hi);
    assert(back.instance_lo == r.instance_lo);
    assert(back.filesize_unk1.value == r.filesize_unk1.value);
    assert(back.compressed_unk2.0 == r.compressed_unk2.0);
    assert(back.compressed_unk2.1 == r.compressed_unk2.1);
    assert(back.compressed_unk2 == r.compressed_unk2);
}

/// The sizes of the chunks are the file sizes of the stored entries.
pub proof fn lemma_sizes(raw: Seq<IndexEntry>, brand: u64, j: int)
    requires
        0 <= j <= raw.len(),
    ensures
        sizes_sum(entries_of_raw(raw, brand), j) == stored_sum(raw, j),
        0 <= stored_sum(raw, j),
        forall|i: int| 0 <= i <= j ==> 0 <= #[trigger] stored_sum(raw, i) <= stored_sum(raw, j),
    decreases j,
{
    if j > 0 {
        lemma_sizes(raw, brand, j - 1);
        assert(entries_of_raw(raw, brand)[j - 1].chunk.stored_size() == raw[j
            - 1].filesize_unk1.filesize_of());
    }
}

/// The stored words of the template are the words that follow the mask.
proof fn lemma_template_matches(index: Seq<u8>, count: nat, m: int)
    requires
        0 <= m <= 8,
        word_at(index, 0) == template_mask(common_template(stored_entries(index, count))),
    ensures
        template_words(common_template(stored_entries(index, count)), m) == Seq::new(
            rank(word_at(index, 0), m) as nat,
            |q: int| word_at(index, 1 + q),
        ),
    decreases m,
{
    let raw = stored_entries(index, count);
    let template = common_template(raw);
    let mask = word_at(index, 0);
    lemma_mask_of_flags(Seq::new(8, |i: int| template[i].is_some()));
    lemma_rank_bounds(mask, m);
    if m > 0 {
        lemma_template_matches(index, count, m - 1);
        lemma_rank_bounds(mask, m - 1);
        assert(mask_has(mask, m - 1) == template[m - 1].is_some());
        if template[m - 1].is_some() {
            let got = Seq::new(8, |i: int| word_at(index, field_slot(word_at(index, 0), 0, i)));
            IndexEntry::lemma_entry_of_words(got);
            assert(raw[0] == read_entry(index, 0));
            assert(raw[0].words()[m - 1] == got[m - 1]);
            assert(template[m - 1].unwrap() == word_at(index, 1 + rank(mask, m - 1)));
        }
        assert(template_words(template, m) =~= Seq::new(
            rank(mask, m) as nat,
            |q: int| word_at(index, 1 + q),
        ));
    } else {
        assert(template_words(template, m) =~= Seq::new(
            rank(mask, m) as nat,
            |q: int| word_at(index, 1 + q),
        ));
    }
}

/// The stored words of entry `j` are the words at its place in the index.
proof fn lemma_own_matches(index: Seq<u8>, j: int, m: int)
    requires
        0 <= m <= 8,
        0 <= j,
    ensures
        own_words(word_at(index, 0), read_entry(index, j).words(), m) == Seq::new(
            (m - rank(word_at(index, 0), m)) as nat,
            |q: int|
                word_at(
                    index,
                    1 + count_present(word_at(index, 0)) + j * (8 - count_present(
                        word_at(index, 0),
                    )) + q,
                ),
        ),
    decreases m,
{
    let mask = word_at(index, 0);
    let k = count_present(mask);
    let e = read_entry(index, j).words();
    let want = Seq::new(
        (m - rank(mask, m)) as nat,
        |q: int| word_at(index, 1 + k + j * (8 - k) + q),
    );
    lemma_rank_bounds(mask, m);
    if m > 0 {
        lemma_own_matches(index, j, m - 1);
        lemma_rank_bounds(mask, m - 1);
        if !mask_has(mask, m - 1) {
            let got = Seq::new(8, |i: int| word_at(index, field_slot(word_at(index, 0), j, i)));
            IndexEntry::lemma_entry_of_words(got);
            assert(e[m - 1] == got[m - 1]);
        }
        assert(own_words(mask, e, m) =~= want);
    } else {
        assert(own_words(mask, e, m) =~= want);
    }
}

/// The stored words of the first `j` entries are the words that follow the
/// template.
proof fn lemma_entries_match(index: Seq<u8>, count: nat, j: int)
    requires
        0 <= j <= count,
    ensures
        entries_words(word_at(index, 0), stored_entries(index, count).take(j)) == Seq::new(
            (j * (8 - count_present(word_at(index, 0)))) as nat,
            |q: int| word_at(index, 1 + count_present(word_at(index, 0)) + q),
        ),
    decreases j,
{
    let mask = word_at(index, 0);
    let k = count_present(mask);
    let raw = stored_entries(index, count);
    let want = Seq::new((j * (8 - k)) as nat, |q: int| word_at(index, 1 + k + q));
    lemma_rank_bounds(mask, 8);
    if j > 0 {
        lemma_entries_match(index, count, j - 1);
        lemma_own_matches(index, j - 1, 8);
        assert(raw.take(j).drop_last() =~= raw.take(j - 1));
        assert(raw.take(j).last() == read_entry(index, j - 1));
        assert(j * (8 - k) == (j - 1) * (8 - k) + (8 - k)) by (nonlinear_arith);
        assert(0 <= (j - 1) * (8 - k)) by (nonlinear_arith)
            requires
                0 <= j - 1,
                0 <= 8 - k,
        ;
        assert(entries_words(mask, raw.take(j)) =~= want);
    } else {
        assert(0 * (8 - k) == 0);
        assert(entries_words(mask, raw.take(j)) =~= want);
    }
}

/// The index that is written for the entries read from an index is that
/// index, where its mask is the mask of what its entries share.
#[verifier::spinoff_prover]
pub proof fn lemma_index_bytes_of_stored(index: Seq<u8>, count: nat)
    requires
        4 <= index.len(),
        index_size(word_at(index, 0), count as int) <= index.len(),
        word_at(index, 0) == template_mask(common_template(stored_entries(index, count))),
    ensures
        index_bytes(
            common_template(stored_entries(index, count)),
            stored_entries(index, count),
        ) == index.take(index_size(word_at(index, 0), count as int)),
{
    let mask = word_at(index, 0);
    let k = count_present(mask);
    let raw = stored_entries(index, count);
    let template = common_template(raw);
    let size = index_size(mask, count as int);
    let words = (1 + k + (8 - k) * count) as nat;
    lemma_index_size_bounds(mask, count as int);
    lemma_template_matches(index, count, 8);
    lemma_entries_match(index, count, count as int);
    assert(raw.take(count as int) =~= raw);
    assert(count * (8 - k) == (8 - k) * count) by (nonlinear_arith);
    let front = index.take(size);
    let a = seq![mask];
    let b = template_words(template, 8);
    let c = entries_words(mask, raw);
    assert(b.len() == k);
    assert(c.len() == (8 - k) * count);
    lemma_front_words(index, size, words);
    assert(template_mask(template) == mask);
    let all = a + b + c;
    assert(all.len() == words);
    assert forall|p: int| 0 <= p < words implies all[p] == word_at(front, p) by {
        if p == 0 {
        } else if p < 1 + k {
            assert(all[p] == b[p - 1]);
        } else {
            assert(all[p] == c[p - 1 - k]);
        }
    }
    assert(all =~= le_words(front, words));
    assert(index_words(template, raw) == all);
    lemma_words_le_of_le_words(front, words);
}

/// The words of the front of a sequence of bytes are the words of the
/// sequence.
proof fn lemma_front_words(s: Seq<u8>, size: int, words: nat)
    requires
        size == 4 * words,
        size <= s.len(),
    ensures
        forall|p: int| 0 <= p < words ==> #[trigger] word_at(s.take(size), p) == word_at(s, p),
{
    assert forall|p: int| 0 <= p < words implies #[trigger] word_at(s.take(size), p) == word_at(
        s,
        p,
    ) by {
        assert(s.take(size).subrange(4 * p, 4 * p + 4) =~= s.subrange(4 * p, 4 * p + 4));
    }
}

/// The header that is written for the fields read from a header is that
/// header, where it ends in zeros.
pub proof fn lemma_header_bytes_of_parsed(data: Seq<u8>)
    requires
        parsed_header(data).is_ok(),
        forall|i: int| 17 <= i < 24 ==> #[trigger] word_at(data, i) == 0,
    ensures
        parsed_header(data).unwrap().bytes() == data.take(HEADER_SIZE as int),
{
    let header = parsed_header(data).unwrap();
    let front = data.take(HEADER_SIZE as int);
    assert forall|p: int| 0 <= p < 24 implies word_at(front, p) == word_at(data, p) by {
        assert(front.subrange(4 * p, 4 * p + 4) =~= data.subrange(4 * p, 4 * p + 4));
    }
    assert(word_at(data, 17) == 0 && word_at(data, 18) == 0 && word_at(data, 19) == 0 && word_at(
        data,
        20,
    ) == 0 && word_at(data, 21) == 0 && word_at(data, 22) == 0 && word_at(data, 23) == 0);
    assert(header.words() =~= le_words(front, 24));
    lemma_words_le_of_le_words(front, 24);
}

/// The reader of an uncompressed chunk that lies within the file gives the
/// bytes of the file at the place of the chunk.
proof fn lemma_stored_content(r: IndexEntry, brand: u64, data: Seq<u8>)
    requires
        r.compressed_unk2.0 == 0,
        r.chunk_offset + r.filesize_unk1.filesize_of() <= data.len(),
    ensures
        entry_of_raw(r, brand).chunk.content(data, Some(brand)) == Ok::<Seq<u8>, Error>(
            data.subrange(
                r.chunk_offset as int,
                r.chunk_offset + r.filesize_unk1.filesize_of(),
            ),
        ),
        entry_of_raw(r, brand).chunk.stored_size() == r.filesize_unk1.filesize_of(),
{
}

/// The chunks of one more entry.
proof fn lemma_payload_step(
    views: Seq<EntryView>,
    source: Seq<u8>,
    ctx_brand: Option<u64>,
    front: Seq<u8>,
    bytes: Seq<u8>,
)
    requires
        views.len() > 0,
        payload(views.drop_last(), source, ctx_brand) == Ok::<Seq<u8>, Error>(front),
        views.last().chunk.content(source, ctx_brand) == Ok::<Seq<u8>, Error>(bytes),
    ensures
        payload(views, source, ctx_brand) == Ok::<Seq<u8>, Error>(front + bytes),
{
}

/// The chunks of the first `m` entries, which stand one behind the other
/// from `start` on, are the bytes of the file from `start` on.
#[verifier::spinoff_prover]
proof fn lemma_payload_of_stored(raw: Seq<IndexEntry>, brand: u64, data: Seq<u8>, start: int, m: int)
    requires
        0 <= m <= raw.len(),
        0 <= start,
        start + stored_sum(raw, raw.len() as int) <= data.len(),
        forall|j: int|
            0 <= j < raw.len() ==> (#[trigger] raw[j]).compressed_unk2.0 == 0 && raw[j].chunk_offset
                == start + stored_sum(raw, j),
    ensures
        payload(entries_of_raw(raw, brand).take(m), data, Some(brand)) == Ok::<Seq<u8>, Error>(
            data.subrange(start, start + stored_sum(raw, m)),
        ),
    decreases m,
{
    let views = entries_of_raw(raw, brand);
    if m > 0 {
        lemma_payload_of_stored(raw, brand, data, start, m - 1);
        lemma_sizes(raw, brand, raw.len() as int);
        let r = raw[m - 1];
        let offset = r.chunk_offset;
        let size = r.filesize_unk1.filesize_of();
        let a = stored_sum(raw, m - 1);
        let b = stored_sum(raw, m);
        assert(b == a + size);
        assert(0 <= a);
        assert(b <= stored_sum(raw, raw.len() as int));
        assert(offset == start + a);
        lemma_stored_content(r, brand, data);
        let front = data.subrange(start, start + a);
        let bytes = data.subrange(offset as int, offset + size);
        assert(views.take(m).drop_last() =~= views.take(m - 1));
        assert(views.take(m).last() == entry_of_raw(r, brand));
        lemma_payload_step(views.take(m), data, Some(brand), front, bytes);
        assert(front + bytes =~= data.subrange(start, start + b));
    } else {
        lemma_sizes(raw, brand, raw.len() as int);
        assert(views.take(m) =~= Seq::<EntryView>::empty());
        assert(stored_sum(raw, 0) == 0);
        assert(data.subrange(start, start) =~= Seq::<u8>::empty());
    }
}

/// The entries that stand one behind the other from `base` on are laid out
/// as the writer lays out what they stand for.
proof fn lemma_layout_of_stored(raw: Seq<IndexEntry>, brand: u64, base: int)
    requires
        forall|j: int|
            0 <= j < raw.len() ==> {
                &&& (#[trigger] raw[j]).compressed_unk2.0 == 0
                &&& raw[j].memsize == raw[j].filesize_unk1.filesize_of()
                &&& raw[j].chunk_offset == base + stored_sum(raw, j)
            },
    ensures
        laid_out(entries_of_raw(raw, brand), base) == raw,
        crate::dbpf::sizes_fit(entries_of_raw(raw, brand)),
        sizes_sum(entries_of_raw(raw, brand), raw.len() as int) == stored_sum(
            raw,
            raw.len() as int,
        ),
{
    let views = entries_of_raw(raw, brand);
    lemma_sizes(raw, brand, raw.len() as int);
    assert forall|j: int| 0 <= j < raw.len() implies laid_out(views, base)[j] == raw[j] by {
        lemma_raw_round_trip(raw[j], brand);
        lemma_sizes(raw, brand, j);
    }
    assert(laid_out(views, base) =~= raw);
    assert forall|j: int| 0 <= j < views.len() implies (#[trigger] views[j]).chunk.stored_size()
        < 0x8000_0000 by {
        lemma_raw_round_trip(raw[j], brand);
    }
}

/// What parsing a canonical file gives.
proof fn lemma_parsed_canonical(data: Seq<u8>, brand: u64)
    requires
        parsed(data, brand).is_ok(),
        canonical(data),
    ensures
        ({
            let header = parsed_header(data).unwrap();
            let index = data.skip(HEADER_SIZE as int);
            let raw = stored_entries(index, header.index_entries as nat);
            &&& parsed(data, brand).unwrap().entries == entries_of_raw(raw, brand)
            &&& parsed(data, brand).unwrap().maybe_flags == header.maybe_flags
            &&& parsed(data, brand).unwrap().created_timestamp == header.created_timestamp
            &&& parsed(data, brand).unwrap().modified_timestamp == header.modified_timestamp
            &&& header.index_size == index_size(word_at(index, 0), header.index_entries as int)
            &&& raw.len() == header.index_entries
        }),
{
}

/// The file that is written for `archive` where its three parts are known.
proof fn lemma_written_parts(
    archive: crate::dbpf::ArchiveView,
    source: Seq<u8>,
    brand: u64,
    head: Seq<u8>,
    index: Seq<u8>,
    chunks: Seq<u8>,
)
    requires
        fits(archive.entries),
        written_header(archive).bytes() == head,
        index_bytes(
            common_template(written_entries(archive.entries)),
            written_entries(archive.entries),
        ) == index,
        payload(archive.entries, source, Some(brand)) == Ok::<Seq<u8>, Error>(chunks),
    ensures
        written(archive, source, Some(brand)) == Ok::<Seq<u8>, Error>(head + index + chunks),
{
}

/// A sequence is its front, its middle and its back.
proof fn lemma_three_parts(data: Seq<u8>, a: int, b: int)
    requires
        0 <= a <= b <= data.len(),
    ensures
        data.take(a) + data.subrange(a, b) + data.subrange(b, data.len() as int) == data,
{
    assert(data.take(a) + data.subrange(a, b) + data.subrange(b, data.len() as int) =~= data);
}

/// Whether the header `header` and the archive `archive` are the parts of
/// the canonical file `data`.
#[verifier::opaque]
spec fn parts_of(
    data: Seq<u8>,
    brand: u64,
    header: DBPFHeader,
    archive: crate::dbpf::ArchiveView,
) -> bool {
    let index = data.skip(HEADER_SIZE as int);
    let raw = stored_entries(index, header.index_entries as nat);
    &&& HEADER_SIZE + 4 <= data.len() <= u32::MAX
    &&& header.index_position == HEADER_SIZE
    &&& header.index_position_old == 0
    &&& header.hole_index_count == 0
    &&& header.hole_index_position == 0
    &&& header.hole_index_size == 0
    &&& header.maybe_flags == archive.maybe_flags
    &&& header.created_timestamp == archive.created_timestamp
    &&& header.modified_timestamp == archive.modified_timestamp
    &&& archive.entries == entries_of_raw(raw, brand)
    &&& header.index_size == index_size(word_at(index, 0), header.index_entries as int)
    &&& word_at(index, 0) == template_mask(common_template(raw))
    &&& forall|j: int|
        0 <= j < raw.len() ==> {
            &&& (#[trigger] raw[j]).compressed_unk2.0 == 0
            &&& raw[j].memsize == raw[j].filesize_unk1.filesize_of()
            &&& raw[j].chunk_offset == HEADER_SIZE + header.index_size + stored_sum(raw, j)
        }
    &&& data.len() == HEADER_SIZE + header.index_size + stored_sum(raw, raw.len() as int)
}

/// The layout that the writer plans for the archive of a canonical file is
/// the layout of the file.
#[verifier::spinoff_prover]
proof fn lemma_plan_of_parts(
    data: Seq<u8>,
    brand: u64,
    header: DBPFHeader,
    archive: crate::dbpf::ArchiveView,
)
    requires
        parts_of(data, brand, header, archive),
    ensures
        fits(archive.entries),
        written_header(archive) == header,
        written_entries(archive.entries) == stored_entries(
            data.skip(HEADER_SIZE as int),
            header.index_entries as nat,
        ),
{
    reveal(parts_of);
    let index = data.skip(HEADER_SIZE as int);
    let n = header.index_entries as nat;
    let raw = stored_entries(index, n);
    let mask = word_at(index, 0);
    let views = archive.entries;
    let size = header.index_size as int;
    let start = HEADER_SIZE + size;
    lemma_index_size_bounds(mask, n as int);
    lemma_sizes(raw, brand, n as int);
    lemma_layout_of_stored(raw, brand, start);
    lemma_layout_mask(views, start);
    assert(layout_mask(views) == mask);
    assert(views.len() == n);
    assert(index_size(layout_mask(views), views.len() as int) == size);
    assert(written_entries(views) == raw);
}

/// The chunks of the archive of a canonical file are the bytes that follow
/// the index.
proof fn lemma_chunks_of_parts(
    data: Seq<u8>,
    brand: u64,
    header: DBPFHeader,
    archive: crate::dbpf::ArchiveView,
)
    requires
        parts_of(data, brand, header, archive),
    ensures
        payload(archive.entries, data, Some(brand)) == Ok::<Seq<u8>, Error>(
            data.subrange(HEADER_SIZE + header.index_size, data.len() as int),
        ),
{
    reveal(parts_of);
    let index = data.skip(HEADER_SIZE as int);
    let n = header.index_entries as nat;
    let raw = stored_entries(index, n);
    let views = archive.entries;
    let start = HEADER_SIZE + header.index_size;
    lemma_payload_of_stored(raw, brand, data, start, n as int);
    assert(views.take(n as int) =~= views);
}

/// The index of a canonical file is written as it stands in the file.
proof fn lemma_index_of_parts(
    data: Seq<u8>,
    brand: u64,
    header: DBPFHeader,
    archive: crate::dbpf::ArchiveView,
)
    requires
        parts_of(data, brand, header, archive),
    ensures
        ({
            let raw = stored_entries(data.skip(HEADER_SIZE as int), header.index_entries as nat);
            index_bytes(common_template(raw), raw) == data.subrange(
                HEADER_SIZE as int,
                HEADER_SIZE + header.index_size,
            )
        }),
        0 <= header.index_size,
        HEADER_SIZE + header.index_size <= data.len(),
{
    reveal(parts_of);
    let index = data.skip(HEADER_SIZE as int);
    let n = header.index_entries as nat;
    let raw = stored_entries(index, n);
    let size = header.index_size as int;
    lemma_sizes(raw, brand, n as int);
    lemma_index_bytes_of_stored(index, n);
    assert(index.take(size) =~= data.subrange(HEADER_SIZE as int, HEADER_SIZE + size));
}

/// The round trip, stated of the parts of the file.
#[verifier::spinoff_prover]
proof fn lemma_write_of_parts(
    data: Seq<u8>,
    brand: u64,
    header: DBPFHeader,
    archive: crate::dbpf::ArchiveView,
)
    requires
        parts_of(data, brand, header, archive),
        header.bytes() == data.take(HEADER_SIZE as int),
    ensures
        written(archive, data, Some(brand)) == Ok::<Seq<u8>, Error>(data),
{
    let start = HEADER_SIZE + header.index_size;
    let head = data.take(HEADER_SIZE as int);
    let index = data.subrange(HEADER_SIZE as int, start);
    let chunks = data.subrange(start, data.len() as int);
    lemma_plan_of_parts(data, brand, header, archive);
    lemma_chunks_of_parts(data, brand, header, archive);
    lemma_index_of_parts(data, brand, header, archive);
    lemma_written_parts(archive, data, brand, head, index, chunks);
    lemma_three_parts(data, HEADER_SIZE as int, start);
}

/// Writing the archive that was parsed from a canonical file, with that file
/// as the source of its chunks, gives the file back byte for byte.
#[verifier::spinoff_prover]
pub proof fn lemma_write_of_parsed(data: Seq<u8>, brand: u64)
    requires
        parsed(data, brand).is_ok(),
        canonical(data),
    ensures
        written(parsed(data, brand).unwrap(), data, Some(brand)) == Ok::<Seq<u8>, Error>(data),
{
    lemma_parsed_canonical(data, brand);
    lemma_header_bytes_of_parsed(data);
    reveal(parts_of);
    assert(parts_of(data, brand, parsed_header(data).unwrap(), parsed(data, brand).unwrap()));
    lemma_write_of_parts(data, brand, parsed_header(data).unwrap(), parsed(data, brand).unwrap());
}

} // verus!
