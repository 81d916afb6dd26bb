//! The index of an archive: a mask, a template of the fields that all
//! entries share, and for each entry the fields that are left.
//!
//! Every field is one 32-bit word on disk. Bit `i` of the mask says that
//! field `i` is stored once, in the template, and not in the entries.

use crate::error::Error;
use crate::util::read_u32_le;
use crate::util::word_at;
use crate::util::words_le;
use crate::util::write_u32_le;
use vstd::prelude::*;

verus! {

/// The number of fields of an index entry.
pub const FIELD_COUNT: usize = 8;

/// The place of `resource_type` among the fields.
pub const RESOURCE_TYPE: usize = 0;

/// The place of `resource_group` among the fields.
pub const RESOURCE_GROUP: usize = 1;

/// The place of `instance_hi` among the fields.
pub const INSTANCE_HI: usize = 2;

/// The place of `instance_lo` among the fields.
pub const INSTANCE_LO: usize = 3;

/// The place of `chunk_offset` among the fields.
pub const CHUNK_OFFSET: usize = 4;

/// The place of `filesize_unk1` among the fields.
pub const FILESIZE_UNK1: usize = 5;

/// The place of `memsize` among the fields.
pub const MEMSIZE: usize = 6;

/// The place of `compressed_unk2` among the fields.
pub const COMPRESSED_UNK2: usize = 7;

/// Whether bit `i` of `mask` is set: field `i` is stored in the template.
pub open spec fn mask_has(mask: u32, i: int) -> bool {
    mask & (1u32 << (i as u32)) != 0
}

/// The number of fields below `i` that `mask` puts into the template.
pub open spec fn rank(mask: u32, i: int) -> int
    decreases i,
{
    if i <= 0 {
        0
    } else if mask_has(mask, i - 1) {
        rank(mask, i - 1) + 1
    } else {
        rank(mask, i - 1)
    }
}

/// The number of fields that `mask` puts into the template.
pub open spec fn count_present(mask: u32) -> int {
    rank(mask, FIELD_COUNT as int)
}

/// The size in bytes of an index of `n` entries under `mask`: one word for
/// the mask, one for each field of the template, and for each entry one for
/// each field that is left.
pub open spec fn index_size(mask: u32, n: int) -> int {
    (1 + count_present(mask) + (8 - count_present(mask)) * n) * 4
}

/// The rank counts at most the fields below `i`, and grows with `i`.
pub proof fn lemma_rank_bounds(mask: u32, i: int)
    requires
        0 <= i,
    ensures
        0 <= rank(mask, i) <= i,
        forall|j: int| 0 <= j <= i ==> 0 <= #[trigger] rank(mask, j) <= rank(mask, i) && rank(
            mask,
            i,
        ) - rank(mask, j) <= i - j,
    decreases i,
{
    if i > 0 {
        lemma_rank_bounds(mask, i - 1);
    }
}

/// An index holds at least its mask, and its size is a whole number of
/// words.
pub proof fn lemma_index_size_bounds(mask: u32, n: int)
    requires
        0 <= n,
    ensures
        0 <= count_present(mask) <= 8,
        4 <= index_size(mask, n),
        index_size(mask, n) % 4 == 0,
{
    lemma_rank_bounds(mask, 8);
    let k = count_present(mask);
    assert(0 <= (8 - k) * n) by (nonlinear_arith)
        requires
            0 <= 8 - k,
            0 <= n,
    ;
}

/// The mask of an index, as read from or written to the archive. Only the
/// low eight bits have a meaning.
#[derive(Debug, Clone, Copy, PartialEq, Eq, Structural)]
pub struct IndexEntryMask {
    pub value: u32,
}

impl IndexEntryMask {
    /// The mask that puts no field into the template.
    pub fn empty() -> (r: Self)
        ensures
            r.value == 0,
            forall|i: int| 0 <= i < 8 ==> !mask_has(r.value, i),
    {
        assert forall|i: int| 0 <= i < 8 implies !mask_has(0u32, i) by {
            let s = i as u32;
            assert(0u32 & (1u32 << s) == 0) by (bit_vector);
        }
        IndexEntryMask { value: 0 }
    }

    /// Whether field `i` is stored in the template.
    pub fn has(&self, i: usize) -> (r: bool)
        requires
            i < FIELD_COUNT,
        ensures
            r == mask_has(self.value, i as int),
    {
        self.value & (1u32 << (i as u32)) != 0
    }

    /// Puts field `i` into the template, or takes it out.
    pub fn set(&mut self, i: usize, present: bool)
        requires
            i < FIELD_COUNT,
        ensures
            mask_has(final(self).value, i as int) == present,
            forall|j: int|
                0 <= j < 32 && j != i ==> mask_has(final(self).value, j) == mask_has(
                    old(self).value,
                    j,
                ),
    {
        let bit: u32 = 1u32 << (i as u32);
        let before: u32 = self.value;
        let after: u32 = if present {
            before | bit
        } else {
            before & !bit
        };
        proof {
            let s = i as u32;
            assert((before | (1u32 << s)) & (1u32 << s) != 0) by (bit_vector)
                requires
                    s < 8,
            ;
            assert((before & !(1u32 << s)) & (1u32 << s) == 0) by (bit_vector)
                requires
                    s < 8,
            ;
            assert forall|j: int| 0 <= j < 32 && j != i implies mask_has(after, j) == mask_has(
                before,
                j,
            ) by {
                let t = j as u32;
                assert(((before | (1u32 << s)) & (1u32 << t) != 0) == (before & (1u32 << t) != 0))
                    by (bit_vector)
                    requires
                        s < 8,
                        t < 32,
                        s != t,
                ;
                assert(((before & !(1u32 << s)) & (1u32 << t) != 0) == (before & (1u32 << t)
                    != 0)) by (bit_vector)
                    requires
                        s < 8,
                        t < 32,
                        s != t,
                ;
            }
        }
        self.value = after;
    }

    /// The number of fields that are stored in the template.
    pub fn count_present(&self) -> (r: u32)
        ensures
            r == count_present(self.value),
            r <= 8,
    {
        let mut n: u32 = 0;
        let mut i: usize = 0;
        while i < FIELD_COUNT
            invariant
                i <= FIELD_COUNT,
                n == rank(self.value, i as int),
                n <= i,
            decreases FIELD_COUNT - i,
        {
            if self.has(i) {
                n += 1;
            }
            i += 1;
        }
        n
    }

    /// The size in bytes of an index of `n` entries under this mask, or
    /// `None` where it does not fit in 32 bits.
    pub fn index_size(&self, n: u32) -> (r: Option<u32>)
        ensures
            index_size(self.value, n as int) <= u32::MAX ==> r == Some(
                index_size(self.value, n as int) as u32,
            ),
            index_size(self.value, n as int) > u32::MAX ==> r.is_none(),
            4 <= index_size(self.value, n as int),
    {
        let k: u64 = self.count_present() as u64;
        assert(0 <= (8 - k) * n <= 8 * 0xFFFF_FFFF) by (nonlinear_arith)
            requires
                0 <= k <= 8,
                0 <= n <= 0xFFFF_FFFF,
        ;
        let size: u64 = (1 + k + (8 - k) * (n as u64)) * 4;
        if size <= u32::MAX as u64 {
            Some(size as u32)
        } else {
            None
        }
    }
}

/// The size of a chunk in the file, with one bit of unknown meaning above
/// its 31 bits.
#[derive(Debug, Clone, Copy, PartialEq, Eq, Structural)]
pub struct IndexFilesize {
    pub value: u32,
}

impl IndexFilesize {
    /// The size: the low 31 bits.
    pub open spec fn filesize_of(self) -> u32 {
        (self.value % 0x8000_0000) as u32
    }

    /// The flag: the high bit.
    pub open spec fn unk1_of(self) -> bool {
        self.value >= 0x8000_0000
    }

    /// Packs a size below 2^31 and the flag.
    pub fn new(filesize: u32, unk1: bool) -> (r: Self)
        requires
            filesize < 0x8000_0000,
        ensures
            r.filesize_of() == filesize,
            r.unk1_of() == unk1,
    {
        if unk1 {
            IndexFilesize { value: filesize + 0x8000_0000 }
        } else {
            IndexFilesize { value: filesize }
        }
    }

    /// The size: the low 31 bits.
    pub fn filesize(&self) -> (r: u32)
        ensures
            r == self.filesize_of(),
            r < 0x8000_0000,
    {
        self.value % 0x8000_0000
    }

    /// The flag: the high bit.
    pub fn unk1(&self) -> (r: bool)
        ensures
            r == self.unk1_of(),
    {
        self.value >= 0x8000_0000
    }
}

/// One entry of the index, with its eight fields as the archive stores
/// them.
#[derive(Debug, Clone, Copy, PartialEq, Eq)]
pub struct IndexEntry {
    pub resource_type: u32,
    pub resource_group: u32,
    pub instance_hi: u32,
    pub instance_lo: u32,
    pub chunk_offset: u32,
    pub filesize_unk1: IndexFilesize,
    pub memsize: u32,
    /// The compression flag (the low half of the stored word) and 16 bits of
    /// unknown meaning (the high half).
    pub compressed_unk2: (u16, u16),
}

/// The entry whose fields are the eight words `w`.
pub open spec fn entry_of_words(w: Seq<u32>) -> IndexEntry
    recommends
        w.len() == 8,
{
    IndexEntry {
        resource_type: w[0],
        resource_group: w[1],
        instance_hi: w[2],
        instance_lo: w[3],
        chunk_offset: w[4],
        filesize_unk1: IndexFilesize { value: w[5] },
        memsize: w[6],
        compressed_unk2: ((w[7] % 0x1_0000) as u16, (w[7] / 0x1_0000) as u16),
    }
}

impl IndexEntry {
    /// The eight fields as stored words, in the order of the mask's bits.
    pub open spec fn words(self) -> Seq<u32> {
        seq![
            self.resource_type,
            self.resource_group,
            self.instance_hi,
            self.instance_lo,
            self.chunk_offset,
            self.filesize_unk1.value,
            self.memsize,
            (self.compressed_unk2.0 + self.compressed_unk2.1 * 0x1_0000) as u32,
        ]
    }

    /// An entry is given by its words, and the words by the entry.
    pub proof fn lemma_words(self)
        ensures
            self.words().len() == 8,
            entry_of_words(self.words()) == self,
    {
    }

    /// Eight words are the words of the entry made from them.
    pub proof fn lemma_entry_of_words(w: Seq<u32>)
        requires
            w.len() == 8,
        ensures
            entry_of_words(w).words() == w,
    {
        assert(entry_of_words(w).words() =~= w);
    }

    /// The eight fields as stored words.
    pub fn to_words(&self) -> (r: [u32; 8])
        ensures
            r@ == self.words(),
    {
        let flags: u32 = self.compressed_unk2.0 as u32 + self.compressed_unk2.1 as u32 * 0x1_0000;
        let r = [
            self.resource_type,
            self.resource_group,
            self.instance_hi,
            self.instance_lo,
            self.chunk_offset,
            self.filesize_unk1.value,
            self.memsize,
            flags,
        ];
        assert(r@ =~= self.words());
        r
    }

    /// The entry whose fields are the words `w`.
    pub fn from_words(w: &[u32; 8]) -> (r: IndexEntry)
        ensures
            r == entry_of_words(w@),
    {
        IndexEntry {
            resource_type: w[0],
            resource_group: w[1],
            instance_hi: w[2],
            instance_lo: w[3],
            chunk_offset: w[4],
            filesize_unk1: IndexFilesize { value: w[5] },
            memsize: w[6],
            compressed_unk2: ((w[7] % 0x1_0000) as u16, (w[7] / 0x1_0000) as u16),
        }
    }
}

/// The mask that has bit `i` set exactly where `present[i]` holds, for the
/// eight fields, and no other bit.
pub open spec fn mask_of_flags(present: Seq<bool>) -> u32
    recommends
        present.len() == 8,
{
    (if present[0] { 0x01u32 } else { 0u32 })
    | (if present[1] { 0x02u32 } else { 0u32 })
    | (if present[2] { 0x04u32 } else { 0u32 })
    | (if present[3] { 0x08u32 } else { 0u32 })
    | (if present[4] { 0x10u32 } else { 0u32 })
    | (if present[5] { 0x20u32 } else { 0u32 })
    | (if present[6] { 0x40u32 } else { 0u32 })
    | (if present[7] { 0x80u32 } else { 0u32 })
}

/// The mask of a template: bit `i` is set exactly where the template holds
/// field `i`.
pub open spec fn template_mask(template: Seq<Option<u32>>) -> u32
    recommends
        template.len() == 8,
{
    mask_of_flags(Seq::new(8, |i: int| template[i].is_some()))
}

proof fn lemma_mask_bits(b0: bool, b1: bool, b2: bool, b3: bool, b4: bool, b5: bool, b6: bool, b7: bool)
    by (bit_vector)
    ensures
        ({
            let m = (if b0 { 0x01u32 } else { 0u32 }) | (if b1 { 0x02u32 } else { 0u32 }) | (if b2 {
                0x04u32
            } else {
                0u32
            }) | (if b3 { 0x08u32 } else { 0u32 }) | (if b4 { 0x10u32 } else { 0u32 }) | (if b5 {
                0x20u32
            } else {
                0u32
            }) | (if b6 { 0x40u32 } else { 0u32 }) | (if b7 { 0x80u32 } else { 0u32 });
            &&& (m & (1u32 << 0u32) != 0) == b0
            &&& (m & (1u32 << 1u32) != 0) == b1
            &&& (m & (1u32 << 2u32) != 0) == b2
            &&& (m & (1u32 << 3u32) != 0) == b3
            &&& (m & (1u32 << 4u32) != 0) == b4
            &&& (m & (1u32 << 5u32) != 0) == b5
            &&& (m & (1u32 << 6u32) != 0) == b6
            &&& (m & (1u32 << 7u32) != 0) == b7
            &&& m < 0x100
        }),
{
}

/// The mask made of eight flags has bit `i` set exactly where flag `i`
/// holds, and is below 256.
pub proof fn lemma_mask_of_flags(present: Seq<bool>)
    requires
        present.len() == 8,
    ensures
        forall|i: int| 0 <= i < 8 ==> #[trigger] mask_has(mask_of_flags(present), i) == present[i],
        mask_of_flags(present) < 0x100,
{
    lemma_mask_bits(
        present[0],
        present[1],
        present[2],
        present[3],
        present[4],
        present[5],
        present[6],
        present[7],
    );
    let m = mask_of_flags(present);
    assert forall|i: int| 0 <= i < 8 implies #[trigger] mask_has(m, i) == present[i] by {
        if i == 0 {
        } else if i == 1 {
        } else if i == 2 {
        } else if i == 3 {
        } else if i == 4 {
        } else if i == 5 {
        } else if i == 6 {
        } else {
            assert(i == 7);
        }
    }
}

/// Whether all of `entries` hold the same word in field `i`.
pub open spec fn agree(entries: Seq<IndexEntry>, i: int) -> bool {
    forall|j: int| 0 <= j < entries.len() ==> (#[trigger] entries[j]).words()[i] == entries[0].words()[i]
}

/// The template of the fields that all of `entries` share: field `i` is in
/// it where there is an entry and every entry holds the same word there.
pub open spec fn common_template(entries: Seq<IndexEntry>) -> Seq<Option<u32>> {
    Seq::new(
        8,
        |i: int|
            if entries.len() > 0 && agree(entries, i) {
                Some(entries[0].words()[i])
            } else {
                None
            },
    )
}

/// The words of the template as stored: among the first `i` fields, those
/// that the template holds, in order.
pub open spec fn template_words(template: Seq<Option<u32>>, i: int) -> Seq<u32>
    decreases i,
{
    if i <= 0 {
        Seq::empty()
    } else if template[i - 1].is_some() {
        template_words(template, i - 1).push(template[i - 1].unwrap())
    } else {
        template_words(template, i - 1)
    }
}

/// The words of an entry as stored under `mask`: among the first `i` of its
/// fields `w`, those that the mask leaves out of the template, in order.
pub open spec fn own_words(mask: u32, w: Seq<u32>, i: int) -> Seq<u32>
    decreases i,
{
    if i <= 0 {
        Seq::empty()
    } else if mask_has(mask, i - 1) {
        own_words(mask, w, i - 1)
    } else {
        own_words(mask, w, i - 1).push(w[i - 1])
    }
}

/// The stored words of all of `entries` under `mask`, one entry after the
/// other.
pub open spec fn entries_words(mask: u32, entries: Seq<IndexEntry>) -> Seq<u32>
    decreases entries.len(),
{
    if entries.len() == 0 {
        Seq::empty()
    } else {
        entries_words(mask, entries.drop_last()) + own_words(mask, entries.last().words(), 8)
    }
}

/// The words of a whole index: the mask of the template, the template, and
/// the entries.
pub open spec fn index_words(template: Seq<Option<u32>>, entries: Seq<IndexEntry>) -> Seq<u32> {
    seq![template_mask(template)] + template_words(template, 8) + entries_words(
        template_mask(template),
        entries,
    )
}

/// The bytes of a whole index.
pub open spec fn index_bytes(template: Seq<Option<u32>>, entries: Seq<IndexEntry>) -> Seq<u8> {
    words_le(index_words(template, entries))
}

/// The place, counted in words from the start of the index, of field `i` of
/// entry `j`: in the template where the mask has the field, else among the
/// entry's own words.
pub open spec fn field_slot(mask: u32, j: int, i: int) -> int {
    if mask_has(mask, i) {
        1 + rank(mask, i)
    } else {
        1 + count_present(mask) + j * (8 - count_present(mask)) + (i - rank(mask, i))
    }
}

/// Entry `j` of the index whose bytes are `data`.
pub open spec fn read_entry(data: Seq<u8>, j: int) -> IndexEntry {
    entry_of_words(Seq::new(8, |i: int| word_at(data, field_slot(word_at(data, 0), j, i))))
}

/// What reading an index of `n` entries from the start of `data` gives: the
/// mask and the entries, or `TruncatedInput` where `data` ends before the
/// index does.
pub open spec fn parsed_index(data: Seq<u8>, n: nat) -> Result<(u32, Seq<IndexEntry>), Error> {
    if data.len() < 4 {
        Err(Error::TruncatedInput)
    } else if data.len() < index_size(word_at(data, 0), n as int) {
        Err(Error::TruncatedInput)
    } else {
        Ok((word_at(data, 0), Seq::new(n, |j: int| read_entry(data, j))))
    }
}

/// The bytes of `ws` with one more word are the bytes of `ws` and then the
/// bytes of the word.
pub proof fn lemma_words_le_push(ws: Seq<u32>, x: u32)
    ensures
        words_le(ws.push(x)) == words_le(ws) + crate::util::u32_le(x),
{
    assert(ws.push(x).drop_last() =~= ws);
}

/// The word at byte `pos + 4 * slot` of `data` is word `slot` of what
/// follows `pos`.
pub proof fn lemma_word_at_skip(data: Seq<u8>, pos: int, slot: int)
    requires
        0 <= pos,
        0 <= slot,
        pos + 4 * slot + 4 <= data.len(),
    ensures
        data.subrange(pos + 4 * slot, pos + 4 * slot + 4) == data.skip(pos).subrange(
            4 * slot,
            4 * slot + 4,
        ),
{
    assert(data.subrange(pos + 4 * slot, pos + 4 * slot + 4) =~= data.skip(pos).subrange(
        4 * slot,
        4 * slot + 4,
    ));
}

/// The fields that all entries of an index share, each present or absent.
#[derive(Debug, Clone, Copy)]
pub struct PartialIndexEntry {
    pub fields: [Option<u32>; 8],
}

impl PartialIndexEntry {
    /// The template that holds every field of `entry`.
    pub fn from_entry(entry: &IndexEntry) -> (r: Self)
        ensures
            r.fields@ == Seq::new(8, |i: int| Some(entry.words()[i])),
    {
        let w = entry.to_words();
        let fields = [
            Some(w[0]),
            Some(w[1]),
            Some(w[2]),
            Some(w[3]),
            Some(w[4]),
            Some(w[5]),
            Some(w[6]),
            Some(w[7]),
        ];
        assert(fields@ =~= Seq::new(8, |i: int| Some(entry.words()[i])));
        PartialIndexEntry { fields }
    }

    /// The template of the fields that all of `entries` share.
    ///
    /// It starts as the fields of the first entry; a field leaves it as soon
    /// as a later entry holds another word there. Without entries the
    /// template is empty.
    pub fn calc_common_entries(entries: &[IndexEntry]) -> (r: Self)
        ensures
            r.fields@ == common_template(entries@),
    {
        if entries.len() == 0 {
            let fields: [Option<u32>; 8] = [None, None, None, None, None, None, None, None];
            assert(fields@ =~= common_template(entries@));
            return PartialIndexEntry { fields };
        }
        let mut common = Self::from_entry(&entries[0]);
        let ghost first = entries@[0].words();
        let mut j: usize = 1;
        while j < entries.len()
            invariant
                1 <= j <= entries@.len(),
                first == entries@[0].words(),
                forall|i: int|
                    0 <= i < 8 ==> #[trigger] common.fields@[i] == (if agree(
                        entries@.take(j as int),
                        i,
                    ) {
                        Some(first[i])
                    } else {
                        None
                    }),
            decreases entries@.len() - j,
        {
            let w = entries[j].to_words();
            let ghost seen = entries@.take(j as int);
            let ghost next = entries@.take(j + 1);
            let mut i: usize = 0;
            while i < FIELD_COUNT
                invariant
                    i <= FIELD_COUNT,
                    1 <= j < entries@.len(),
                    first == entries@[0].words(),
                    w@ == entries@[j as int].words(),
                    seen == entries@.take(j as int),
                    next == entries@.take(j + 1),
                    forall|h: int|
                        0 <= h < i ==> #[trigger] common.fields@[h] == (if agree(next, h) {
                            Some(first[h])
                        } else {
                            None
                        }),
                    forall|h: int|
                        i <= h < 8 ==> #[trigger] common.fields@[h] == (if agree(seen, h) {
                            Some(first[h])
                        } else {
                            None
                        }),
                decreases FIELD_COUNT - i,
            {
                proof {
                    let h = i as int;
                    if agree(seen, h) && w@[h] == first[h] {
                        assert forall|e: int| 0 <= e < next.len() implies (#[trigger] next[e]).words()[h]
                            == next[0].words()[h] by {
                            if e < j {
                                assert(seen[e].words()[h] == seen[0].words()[h]);
                            }
                        }
                    } else if agree(next, h) {
                        assert(next[j as int].words()[h] == next[0].words()[h]);
                        assert forall|e: int| 0 <= e < seen.len() implies (#[trigger] seen[e]).words()[h]
                            == seen[0].words()[h] by {
                            assert(next[e].words()[h] == next[0].words()[h]);
                        }
                    }
                }
                match common.fields[i] {
                    Some(v) => {
                        if v != w[i] {
                            common.fields[i] = None;
                        }
                    },
                    None => {},
                }
                i += 1;
            }
            j += 1;
        }
        proof {
            assert(entries@.take(j as int) =~= entries@);
            assert(common.fields@ =~= common_template(entries@));
        }
        common
    }

    /// The mask of the template: bit `i` is set exactly where the template
    /// holds field `i`.
    pub fn calc_mask(&self) -> (r: IndexEntryMask)
        ensures
            r.value == template_mask(self.fields@),
    {
        let mut value: u32 = 0;
        let b0: u32 = if self.fields[0].is_some() { 0x01 } else { 0 };
        let b1: u32 = if self.fields[1].is_some() { 0x02 } else { 0 };
        let b2: u32 = if self.fields[2].is_some() { 0x04 } else { 0 };
        let b3: u32 = if self.fields[3].is_some() { 0x08 } else { 0 };
        let b4: u32 = if self.fields[4].is_some() { 0x10 } else { 0 };
        let b5: u32 = if self.fields[5].is_some() { 0x20 } else { 0 };
        let b6: u32 = if self.fields[6].is_some() { 0x40 } else { 0 };
        let b7: u32 = if self.fields[7].is_some() { 0x80 } else { 0 };
        value = b0 | b1 | b2 | b3 | b4 | b5 | b6 | b7;
        IndexEntryMask { value }
    }

    /// Appends the fields that the template holds, in order.
    pub fn write(&self, out: &mut Vec<u8>)
        ensures
            final(out)@ == old(out)@ + words_le(template_words(self.fields@, 8)),
    {
        let mut i: usize = 0;
        assert(old(out)@ + words_le(template_words(self.fields@, 0)) =~= old(out)@);
        while i < FIELD_COUNT
            invariant
                i <= FIELD_COUNT,
                out@ == old(out)@ + words_le(template_words(self.fields@, i as int)),
            decreases FIELD_COUNT - i,
        {
            match self.fields[i] {
                Some(v) => {
                    write_u32_le(out, v);
                    proof {
                        lemma_words_le_push(template_words(self.fields@, i as int), v);
                        assert(out@ =~= old(out)@ + words_le(
                            template_words(self.fields@, i + 1),
                        ));
                    }
                },
                None => {},
            }
            i += 1;
        }
    }

    /// Reads the template of an index that starts at `pos` in `data`: under
    /// `mask`, field `i` is the word in slot `1 + rank(mask, i)` where the
    /// mask has it, and absent where not.
    pub(crate) fn read(data: &[u8], pos: usize, mask: IndexEntryMask) -> (r: Self)
        requires
            pos + 4 + 4 * count_present(mask.value) <= data@.len(),
        ensures
            forall|i: int|
                0 <= i < 8 ==> #[trigger] r.fields@[i] == (if mask_has(mask.value, i) {
                    Some(word_at(data@.skip(pos as int), 1 + rank(mask.value, i)))
                } else {
                    None
                }),
    {
        let total = data.len();
        proof {
            lemma_rank_bounds(mask.value, 8);
        }
        let mut fields: [Option<u32>; 8] = [None, None, None, None, None, None, None, None];
        let mut at: usize = pos + 4;
        let mut i: usize = 0;
        while i < FIELD_COUNT
            invariant
                i <= FIELD_COUNT,
                total == data@.len(),
                pos + 4 + 4 * count_present(mask.value) <= total,
                at == pos + 4 + 4 * rank(mask.value, i as int),
                forall|h: int|
                    0 <= h < i ==> #[trigger] fields@[h] == (if mask_has(mask.value, h) {
                        Some(word_at(data@.skip(pos as int), 1 + rank(mask.value, h)))
                    } else {
                        None
                    }),
                forall|h: int| i <= h < 8 ==> (#[trigger] fields@[h]).is_none(),
            decreases FIELD_COUNT - i,
        {
            proof {
                lemma_rank_bounds(mask.value, 8);
                assert(rank(mask.value, i + 1) <= rank(mask.value, 8));
                assert(0 <= rank(mask.value, i as int));
            }
            if mask.has(i) {
                proof {
                    assert(rank(mask.value, i + 1) == rank(mask.value, i as int) + 1);
                    lemma_word_at_skip(data@, pos as int, 1 + rank(mask.value, i as int));
                }
                fields[i] = Some(read_u32_le(data, at));
                at += 4;
            }
            i += 1;
        }
        PartialIndexEntry { fields }
    }
}

impl IndexEntry {
    /// Appends the fields that `mask` leaves out of the template, in order.
    pub fn write(&self, out: &mut Vec<u8>, mask: IndexEntryMask)
        ensures
            final(out)@ == old(out)@ + words_le(own_words(mask.value, self.words(), 8)),
    {
        let w = self.to_words();
        let mut i: usize = 0;
        assert(old(out)@ + words_le(own_words(mask.value, self.words(), 0)) =~= old(out)@);
        while i < FIELD_COUNT
            invariant
                i <= FIELD_COUNT,
                w@ == self.words(),
                out@ == old(out)@ + words_le(own_words(mask.value, self.words(), i as int)),
            decreases FIELD_COUNT - i,
        {
            if !mask.has(i) {
                write_u32_le(out, w[i]);
                proof {
                    lemma_words_le_push(own_words(mask.value, self.words(), i as int), w@[i as int]);
                    assert(out@ =~= old(out)@ + words_le(
                        own_words(mask.value, self.words(), i + 1),
                    ));
                }
            }
            i += 1;
        }
    }

    /// Reads entry `j` of the index that starts at `pos` in `data`. Fields
    /// that the template `partial` holds are copied from it; the others are
    /// read from the entry's own words, which start at byte `own`.
    pub(crate) fn read(
        data: &[u8],
        pos: usize,
        own: usize,
        mask: IndexEntryMask,
        partial: &PartialIndexEntry,
        Ghost(j): Ghost<int>,
    ) -> (r: IndexEntry)
        requires
            0 <= j,
            own == pos + 4 * (1 + count_present(mask.value) + j * (8 - count_present(mask.value))),
            own + 4 * (8 - count_present(mask.value)) <= data@.len(),
            mask.value == word_at(data@.skip(pos as int), 0),
            forall|i: int|
                0 <= i < 8 ==> #[trigger] partial.fields@[i] == (if mask_has(mask.value, i) {
                    Some(word_at(data@.skip(pos as int), 1 + rank(mask.value, i)))
                } else {
                    None
                }),
        ensures
            r == read_entry(data@.skip(pos as int), j),
    {
        let total = data.len();
        let mut w: [u32; 8] = [0, 0, 0, 0, 0, 0, 0, 0];
        let mut at: usize = own;
        let mut i: usize = 0;
        let ghost index = data@.skip(pos as int);
        proof {
            lemma_rank_bounds(mask.value, 8);
        }
        while i < FIELD_COUNT
            invariant
                i <= FIELD_COUNT,
                0 <= j,
                total == data@.len(),
                index == data@.skip(pos as int),
                own == pos + 4 * (1 + count_present(mask.value) + j * (8 - count_present(
                    mask.value,
                ))),
                own + 4 * (8 - count_present(mask.value)) <= total,
                at == own + 4 * (i - rank(mask.value, i as int)),
                mask.value == word_at(index, 0),
                forall|h: int|
                    0 <= h < 8 ==> #[trigger] partial.fields@[h] == (if mask_has(mask.value, h) {
                        Some(word_at(index, 1 + rank(mask.value, h)))
                    } else {
                        None
                    }),
                forall|h: int|
                    0 <= h < i ==> #[trigger] w@[h] == word_at(index, field_slot(mask.value, j, h)),
            decreases FIELD_COUNT - i,
        {
            proof {
                lemma_rank_bounds(mask.value, 8);
                assert(rank(mask.value, 8) - rank(mask.value, i + 1) <= 8 - (i + 1));
                lemma_rank_bounds(mask.value, i as int);
                assert(0 <= j * (8 - count_present(mask.value))) by (nonlinear_arith)
                    requires
                        0 <= j,
                        0 <= 8 - count_present(mask.value),
                ;
                if !mask_has(mask.value, i as int) {
                    assert(rank(mask.value, i + 1) == rank(mask.value, i as int));
                }
            }
            match partial.fields[i] {
                Some(v) => {
                    w[i] = v;
                },
                None => {
                    proof {
                        lemma_word_at_skip(
                            data@,
                            pos as int,
                            field_slot(mask.value, j, i as int),
                        );
                    }
                    w[i] = read_u32_le(data, at);
                    at += 4;
                },
            }
            i += 1;
        }
        assert(w@ =~= Seq::new(8, |i: int| word_at(index, field_slot(word_at(index, 0), j, i))));
        IndexEntry::from_words(&w)
    }
}

/// Appends a whole index: the mask of the template `common`, the template,
/// and of each entry the fields that the template does not hold.
pub fn write_index(out: &mut Vec<u8>, common: &PartialIndexEntry, entries: &[IndexEntry])
    ensures
        final(out)@ == old(out)@ + index_bytes(common.fields@, entries@),
{
    let mask = common.calc_mask();
    let ghost template = common.fields@;
    write_u32_le(out, mask.value);
    common.write(out);
    proof {
        let head = seq![mask.value];
        lemma_words_le_push(Seq::empty(), mask.value);
        assert(Seq::<u32>::empty().push(mask.value) =~= head);
        assert(words_le(Seq::<u32>::empty()) =~= Seq::<u8>::empty());
        assert(words_le(head) =~= crate::util::u32_le(mask.value));
        crate::util::lemma_words_le_concat(head, template_words(template, 8));
        assert(head + template_words(template, 8) + entries_words(
            mask.value,
            entries@.take(0),
        ) =~= head + template_words(template, 8));
    }
    let mut j: usize = 0;
    while j < entries.len()
        invariant
            j <= entries@.len(),
            template == common.fields@,
            mask.value == template_mask(template),
            out@ == old(out)@ + words_le(
                seq![mask.value] + template_words(template, 8) + entries_words(
                    mask.value,
                    entries@.take(j as int),
                ),
            ),
        decreases entries@.len() - j,
    {
        let ghost before = seq![mask.value] + template_words(template, 8) + entries_words(
            mask.value,
            entries@.take(j as int),
        );
        entries[j].write(out, mask);
        proof {
            let own = own_words(mask.value, entries@[j as int].words(), 8);
            assert(entries@.take(j + 1).drop_last() =~= entries@.take(j as int));
            crate::util::lemma_words_le_concat(before, own);
            assert(before + own =~= seq![mask.value] + template_words(template, 8)
                + entries_words(mask.value, entries@.take(j + 1)));
        }
        j += 1;
    }
    assert(entries@.take(j as int) =~= entries@);
}

/// Reads the index of `count` entries that starts at `pos` in `data`: the
/// mask, then the template, then the entries.
///
/// Fails with `TruncatedInput` where the data ends before the index does.
pub fn read_index(data: &[u8], pos: usize, count: u32) -> (r: Result<
    (IndexEntryMask, Vec<IndexEntry>),
    Error,
>)
    requires
        pos <= data@.len(),
    ensures
        match parsed_index(data@.skip(pos as int), count as nat) {
            Ok((mask, entries)) => r.is_ok() && r.unwrap().0.value == mask && r.unwrap().1@
                == entries,
            Err(e) => r.is_err() && r.unwrap_err() == e,
        },
{
    let total = data.len();
    let ghost index = data@.skip(pos as int);
    if total - pos < 4 {
        return Err(Error::TruncatedInput);
    }
    let mask = IndexEntryMask { value: read_u32_le(data, pos) };
    proof {
        lemma_word_at_skip(data@, pos as int, 0);
    }
    let k: u64 = mask.count_present() as u64;
    assert((8 - k) * count <= 8 * 0xFFFF_FFFF) by (nonlinear_arith)
        requires
            0 <= k <= 8,
            0 <= count <= 0xFFFF_FFFF,
    ;
    let size: u64 = (1 + k + (8 - k) * (count as u64)) * 4;
    if ((total - pos) as u64) < size {
        return Err(Error::TruncatedInput);
    }
    let own_size: usize = (4 * (8 - k)) as usize;
    let common = PartialIndexEntry::read(data, pos, mask);
    let mut entries: Vec<IndexEntry> = Vec::new();
    let mut own: usize = pos + 4 + (4 * k) as usize;
    let mut j: u32 = 0;
    while j < count
        invariant
            j <= count,
            total == data@.len(),
            pos <= total,
            index == data@.skip(pos as int),
            k == count_present(mask.value),
            k <= 8,
            own_size == 4 * (8 - k),
            size == index_size(mask.value, count as int),
            size <= total - pos,
            mask.value == word_at(index, 0),
            own == pos + 4 * (1 + k + j * (8 - k)),
            forall|i: int|
                0 <= i < 8 ==> #[trigger] common.fields@[i] == (if mask_has(mask.value, i) {
                    Some(word_at(index, 1 + rank(mask.value, i)))
                } else {
                    None
                }),
            entries@ == Seq::new(j as nat, |e: int| read_entry(index, e)),
        decreases count - j,
    {
        proof {
            assert((j + 1) * (8 - k) <= count * (8 - k)) by (nonlinear_arith)
                requires
                    j + 1 <= count,
                    0 <= 8 - k,
            ;
            assert((j + 1) * (8 - k) == j * (8 - k) + (8 - k)) by (nonlinear_arith);
        }
        let entry = IndexEntry::read(data, pos, own, mask, &common, Ghost(j as int));
        entries.push(entry);
        own += own_size;
        j += 1;
        assert(entries@ =~= Seq::new(j as nat, |e: int| read_entry(index, e)));
    }
    Ok((mask, entries))
}

/// The stored words of a template: as many as the mask counts, and field
/// `i`, where the template holds it, in place `rank(mask, i)`.
pub proof fn lemma_template_words(template: Seq<Option<u32>>, m: int)
    requires
        template.len() == 8,
        0 <= m <= 8,
    ensures
        template_words(template, m).len() == rank(template_mask(template), m),
        forall|i: int|
            0 <= i < m && template[i].is_some() ==> #[trigger] template_words(template, m)[rank(
                template_mask(template),
                i,
            )] == template[i].unwrap(),
    decreases m,
{
    let mask = template_mask(template);
    lemma_mask_of_flags(Seq::new(8, |i: int| template[i].is_some()));
    if m > 0 {
        lemma_template_words(template, m - 1);
        lemma_rank_bounds(mask, m - 1);
        assert(mask_has(mask, m - 1) == template[m - 1].is_some());
        assert forall|i: int| 0 <= i < m && template[i].is_some() implies #[trigger] template_words(
            template,
            m,
        )[rank(mask, i)] == template[i].unwrap() by {
            if i < m - 1 {
                assert(mask_has(mask, i));
                assert(rank(mask, i + 1) == rank(mask, i) + 1);
                assert(rank(mask, i + 1) <= rank(mask, m - 1));
                assert(template_words(template, m - 1)[rank(mask, i)] == template[i].unwrap());
            }
        }
    }
}

/// The stored words of an entry: as many as the mask leaves, and field `i`,
/// where the mask leaves it, in place `i - rank(mask, i)`.
pub proof fn lemma_own_words(mask: u32, w: Seq<u32>, m: int)
    requires
        0 <= m <= 8,
    ensures
        own_words(mask, w, m).len() == m - rank(mask, m),
        forall|i: int|
            0 <= i < m && !mask_has(mask, i) ==> #[trigger] own_words(mask, w, m)[i - rank(mask, i)]
                == w[i],
    decreases m,
{
    if m > 0 {
        lemma_own_words(mask, w, m - 1);
        lemma_rank_bounds(mask, m - 1);
        assert forall|i: int| 0 <= i < m && !mask_has(mask, i) implies #[trigger] own_words(
            mask,
            w,
            m,
        )[i - rank(mask, i)] == w[i] by {
            lemma_rank_bounds(mask, i);
            if i < m - 1 {
                assert(rank(mask, i + 1) == rank(mask, i));
                assert(rank(mask, m - 1) - rank(mask, i + 1) <= (m - 1) - (i + 1));
                assert(own_words(mask, w, m - 1)[i - rank(mask, i)] == w[i]);
            }
        }
    }
}

/// The stored words of the entries: each entry has as many as the mask
/// leaves, and they stand one entry after the other.
pub proof fn lemma_entries_words(mask: u32, entries: Seq<IndexEntry>)
    ensures
        entries_words(mask, entries).len() == entries.len() * (8 - count_present(mask)),
        forall|j: int, p: int|
            0 <= j < entries.len() && 0 <= p < 8 - count_present(mask) ==> #[trigger] entries_words(
                mask,
                entries,
            )[j * (8 - count_present(mask)) + p] == own_words(mask, entries[j].words(), 8)[p],
    decreases entries.len(),
{
    let k = count_present(mask);
    let n = entries.len() as int;
    lemma_rank_bounds(mask, 8);
    if n > 0 {
        let front = entries.drop_last();
        lemma_entries_words(mask, front);
        lemma_own_words(mask, entries.last().words(), 8);
        assert((n - 1) * (8 - k) + (8 - k) == n * (8 - k)) by (nonlinear_arith);
        assert forall|j: int, p: int| 0 <= j < n && 0 <= p < 8 - k implies #[trigger] entries_words(
            mask,
            entries,
        )[j * (8 - k) + p] == own_words(mask, entries[j].words(), 8)[p] by {
            if j < n - 1 {
                assert(j * (8 - k) + p < (n - 1) * (8 - k)) by (nonlinear_arith)
                    requires
                        0 <= j < n - 1,
                        0 <= p < 8 - k,
                ;
                assert(0 <= j * (8 - k) + p) by (nonlinear_arith)
                    requires
                        0 <= j,
                        0 <= p,
                        0 <= 8 - k,
                ;
                assert(entries_words(mask, front)[j * (8 - k) + p] == own_words(
                    mask,
                    front[j].words(),
                    8,
                )[p]);
            } else {
                assert(j * (8 - k) == (n - 1) * (8 - k));
            }
        }
    } else {
        assert(0 * (8 - k) == 0);
    }
}

/// An index is as long as its mask and entry count say: with `k` fields in
/// the template and `n` entries it has `(1 + k + (8 - k) * n) * 4` bytes.
pub proof fn lemma_index_bytes_len(template: Seq<Option<u32>>, entries: Seq<IndexEntry>)
    requires
        template.len() == 8,
    ensures
        index_bytes(template, entries).len() == index_size(
            template_mask(template),
            entries.len() as int,
        ),
{
    let mask = template_mask(template);
    lemma_template_words(template, 8);
    lemma_entries_words(mask, entries);
    crate::util::lemma_words_le(index_words(template, entries));
    assert(entries.len() * (8 - count_present(mask)) == (8 - count_present(mask)) * entries.len())
        by (nonlinear_arith);
}

/// Whether each entry holds, in every field of the template, the word that
/// the template holds there.
pub open spec fn follows_template(template: Seq<Option<u32>>, entries: Seq<IndexEntry>) -> bool {
    forall|j: int, i: int|
        0 <= j < entries.len() && 0 <= i < 8 && template[i].is_some() ==> (#[trigger] entries[j].words()[i])
            == template[i].unwrap()
}

/// Reading a written index gives back its mask and its entries, whatever
/// follows the index: the codec loses nothing of entries that follow their
/// template.
pub proof fn lemma_index_round_trip(
    template: Seq<Option<u32>>,
    entries: Seq<IndexEntry>,
    rest: Seq<u8>,
)
    requires
        template.len() == 8,
        follows_template(template, entries),
    ensures
        parsed_index(index_bytes(template, entries) + rest, entries.len()) == Ok::<
            (u32, Seq<IndexEntry>),
            Error,
        >((template_mask(template), entries)),
{
    let mask = template_mask(template);
    let k = count_present(mask);
    let n = entries.len() as int;
    let w = index_words(template, entries);
    let data = index_bytes(template, entries) + rest;
    let head = seq![mask] + template_words(template, 8);
    lemma_index_bytes_len(template, entries);
    lemma_index_size_bounds(mask, n);
    lemma_template_words(template, 8);
    lemma_entries_words(mask, entries);
    lemma_mask_of_flags(Seq::new(8, |i: int| template[i].is_some()));
    crate::util::lemma_words_le(w);
    assert forall|p: int| 0 <= p < w.len() implies #[trigger] word_at(data, p) == w[p] by {
        assert(data.subrange(4 * p, 4 * p + 4) =~= words_le(w).subrange(4 * p, 4 * p + 4));
        assert(word_at(words_le(w), p) == w[p]);
    }
    assert(w[0] == mask);
    assert(word_at(data, 0) == mask);
    assert forall|j: int| 0 <= j < n implies #[trigger] read_entry(data, j) == entries[j] by {
        let e = entries[j].words();
        let got = Seq::new(8, |i: int| word_at(data, field_slot(word_at(data, 0), j, i)));
        lemma_own_words(mask, e, 8);
        assert forall|i: int| 0 <= i < 8 implies got[i] == e[i] by {
            lemma_rank_bounds(mask, i);
            lemma_rank_bounds(mask, 8);
            assert(rank(mask, i + 1) <= rank(mask, 8));
            assert(rank(mask, 8) - rank(mask, i + 1) <= 8 - (i + 1));
            if mask_has(mask, i) {
                assert(rank(mask, i + 1) == rank(mask, i) + 1);
                assert(template[i].is_some());
                let slot = 1 + rank(mask, i);
                assert(w[slot] == head[slot]);
                assert(head[slot] == template_words(template, 8)[rank(mask, i)]);
                assert(entries[j].words()[i] == template[i].unwrap());
            } else {
                assert(rank(mask, i + 1) == rank(mask, i));
                let p = i - rank(mask, i);
                assert(0 <= j * (8 - k) + p < n * (8 - k)) by (nonlinear_arith)
                    requires
                        0 <= j < n,
                        0 <= p < 8 - k,
                ;
                let slot = 1 + k + j * (8 - k) + p;
                assert(w[slot] == entries_words(mask, entries)[j * (8 - k) + p]);
                assert(entries_words(mask, entries)[j * (8 - k) + p] == own_words(mask, e, 8)[p]);
                assert(own_words(mask, e, 8)[i - rank(mask, i)] == e[i]);
            }
        }
        assert(got =~= e);
        entries[j].lemma_words();
    }
    assert(Seq::new(entries.len(), |j: int| read_entry(data, j)) =~= entries);
}

/// Every field of every entry has its place within the index.
pub proof fn lemma_field_slot_bound(mask: u32, n: int, j: int, i: int)
    requires
        0 <= j < n,
        0 <= i < 8,
    ensures
        0 < field_slot(mask, j, i),
        4 * field_slot(mask, j, i) + 4 <= index_size(mask, n),
{
    let k = count_present(mask);
    lemma_rank_bounds(mask, 8);
    lemma_rank_bounds(mask, i);
    assert(rank(mask, i + 1) <= rank(mask, 8));
    assert(rank(mask, 8) - rank(mask, i + 1) <= 8 - (i + 1));
    assert(0 <= j * (8 - k)) by (nonlinear_arith)
        requires
            0 <= j,
            0 <= 8 - k,
    ;
    assert((j + 1) * (8 - k) <= n * (8 - k)) by (nonlinear_arith)
        requires
            j + 1 <= n,
            0 <= 8 - k,
    ;
    assert((j + 1) * (8 - k) == j * (8 - k) + (8 - k)) by (nonlinear_arith);
    assert((8 - k) * n == n * (8 - k)) by (nonlinear_arith);
}

/// Reading an index looks at the bytes of the index only: two sequences of
/// bytes that start with the same index are read as the same index.
pub proof fn lemma_parsed_index_of_front(a: Seq<u8>, b: Seq<u8>, n: nat)
    requires
        parsed_index(a, n).is_ok(),
        index_size(word_at(a, 0), n as int) <= b.len(),
        a.take(index_size(word_at(a, 0), n as int)) == b.take(index_size(word_at(a, 0), n as int)),
    ensures
        parsed_index(b, n) == parsed_index(a, n),
{
    let mask = word_at(a, 0);
    let size = index_size(mask, n as int);
    lemma_index_size_bounds(mask, n as int);
    assert forall|p: int| 0 <= p && 4 * p + 4 <= size implies word_at(a, p) == word_at(b, p) by {
        assert(a.subrange(4 * p, 4 * p + 4) =~= a.take(size).subrange(4 * p, 4 * p + 4));
        assert(b.subrange(4 * p, 4 * p + 4) =~= b.take(size).subrange(4 * p, 4 * p + 4));
    }
    assert(word_at(b, 0) == mask);
    assert forall|j: int| 0 <= j < n implies read_entry(a, j) == read_entry(b, j) by {
        let wa = Seq::new(8, |i: int| word_at(a, field_slot(word_at(a, 0), j, i)));
        let wb = Seq::new(8, |i: int| word_at(b, field_slot(word_at(b, 0), j, i)));
        assert forall|i: int| 0 <= i < 8 implies wa[i] == wb[i] by {
            lemma_field_slot_bound(mask, n as int, j, i);
        }
        assert(wa =~= wb);
    }
    assert(Seq::new(n, |j: int| read_entry(a, j)) =~= Seq::new(n, |j: int| read_entry(b, j)));
}

} // verus!
