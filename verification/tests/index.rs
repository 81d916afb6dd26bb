use sims3_rs::dbpf::index::{
    read_index, write_index, IndexEntry, IndexEntryMask, IndexFilesize, PartialIndexEntry,
};
use sims3_rs::error::Error;

fn entry(t: u32, g: u32, hi: u32, lo: u32, off: u32, size: u32, mem: u32, flag: u16, unk2: u16) -> IndexEntry {
    IndexEntry {
        resource_type: t,
        resource_group: g,
        instance_hi: hi,
        instance_lo: lo,
        chunk_offset: off,
        filesize_unk1: IndexFilesize { value: size },
        memsize: mem,
        compressed_unk2: (flag, unk2),
    }
}

fn words(ws: &[u32]) -> Vec<u8> {
    let mut v = Vec::new();
    for w in ws {
        v.extend_from_slice(&w.to_le_bytes());
    }
    v
}

#[test]
fn mask_counts_its_low_eight_bits() {
    assert_eq!(IndexEntryMask { value: 0 }.count_present(), 0);
    assert_eq!(IndexEntryMask { value: 0xFF }.count_present(), 8);
    assert_eq!(IndexEntryMask { value: 0b0010_0101 }.count_present(), 3);
    assert_eq!(IndexEntryMask { value: 0xFFFF_FF00 }.count_present(), 0);
}

#[test]
fn mask_bits_follow_the_field_order() {
    let m = IndexEntryMask { value: 0b0000_0100 };
    assert!(m.has(2));
    assert!(!m.has(3));
    let mut m = IndexEntryMask::empty();
    m.set(3, true);
    m.set(7, true);
    assert_eq!(m.value, 0x88);
    m.set(3, false);
    assert_eq!(m.value, 0x80);
}

#[test]
fn index_size_formula() {
    // (1 + k + (8 - k) * n) * 4
    assert_eq!(IndexEntryMask { value: 0 }.index_size(0), Some(4));
    assert_eq!(IndexEntryMask { value: 0xFF }.index_size(1), Some(36));
    assert_eq!(IndexEntryMask { value: 0xFF }.index_size(1000), Some(36));
    assert_eq!(IndexEntryMask { value: 0 }.index_size(3), Some(100));
    assert_eq!(IndexEntryMask { value: 0b11 }.index_size(5), Some((1 + 2 + 6 * 5) * 4));
    assert_eq!(IndexEntryMask { value: 0 }.index_size(u32::MAX), None);
}

#[test]
fn filesize_word_packs_size_and_flag() {
    let f = IndexFilesize::new(5, true);
    assert_eq!(f.value, 0x8000_0005);
    assert_eq!(f.filesize(), 5);
    assert!(f.unk1());
    let f = IndexFilesize::new(0x7FFF_FFFF, false);
    assert_eq!(f.value, 0x7FFF_FFFF);
    assert_eq!(f.filesize(), 0x7FFF_FFFF);
    assert!(!f.unk1());
}

#[test]
fn entry_words_are_in_mask_order() {
    let e = entry(1, 2, 3, 4, 5, 6, 7, 0xFFFF, 0x1234);
    assert_eq!(e.to_words(), [1, 2, 3, 4, 5, 6, 7, 0x1234_FFFF]);
    assert_eq!(IndexEntry::from_words(&[1, 2, 3, 4, 5, 6, 7, 0x1234_FFFF]), e);
}

#[test]
fn no_entries_have_an_empty_template() {
    let common = PartialIndexEntry::calc_common_entries(&[]);
    assert_eq!(common.fields, [None; 8]);
    assert_eq!(common.calc_mask().value, 0);
    let mut out = Vec::new();
    write_index(&mut out, &common, &[]);
    assert_eq!(out, vec![0, 0, 0, 0]);
}

#[test]
fn single_entry_is_all_template() {
    let e = entry(0x015A_1849, 0, 0, 1, 132, 5, 5, 0, 0);
    let common = PartialIndexEntry::calc_common_entries(&[e]);
    assert_eq!(common.calc_mask().value, 0xFF);
    let mut out = Vec::new();
    write_index(&mut out, &common, &[e]);
    assert_eq!(out, words(&[0xFF, 0x015A_1849, 0, 0, 1, 132, 5, 5, 0]));
}

#[test]
fn template_drops_the_fields_that_differ() {
    let a = entry(10, 20, 0, 1, 100, 5, 5, 0, 0);
    let b = entry(10, 21, 0, 2, 105, 5, 5, 0, 0);
    let c = entry(10, 20, 0, 3, 110, 5, 5, 0, 0);
    let common = PartialIndexEntry::calc_common_entries(&[a, b, c]);
    assert_eq!(
        common.fields,
        [Some(10), None, Some(0), None, None, Some(5), Some(5), Some(0)]
    );
    assert_eq!(common.calc_mask().value, 0b1110_0101);
    let mut out = Vec::new();
    write_index(&mut out, &common, &[a, b, c]);
    assert_eq!(
        out,
        words(&[0b1110_0101, 10, 0, 5, 5, 0, 20, 1, 100, 21, 2, 105, 20, 3, 110])
    );
    assert_eq!(out.len(), (1 + 5 + 3 * 3) * 4);
}

#[test]
fn a_field_that_differs_once_stays_out_of_the_template() {
    let a = entry(1, 0, 0, 0, 0, 0, 0, 0, 0);
    let b = entry(2, 0, 0, 0, 0, 0, 0, 0, 0);
    let c = entry(1, 0, 0, 0, 0, 0, 0, 0, 0);
    let common = PartialIndexEntry::calc_common_entries(&[a, b, c]);
    assert_eq!(common.fields[0], None);
    assert_eq!(common.calc_mask().value, 0xFE);
}

#[test]
fn index_round_trips() {
    let a = entry(10, 20, 7, 1, 100, 0x8000_0005, 9, 0xFFFF, 3);
    let b = entry(10, 21, 7, 2, 105, 5, 5, 0, 3);
    let common = PartialIndexEntry::calc_common_entries(&[a, b]);
    let mut out = vec![0xEE; 3];
    write_index(&mut out, &common, &[a, b]);
    out.extend_from_slice(b"trailing");
    let (mask, entries) = read_index(&out, 3, 2).unwrap();
    assert_eq!(mask.value, common.calc_mask().value);
    assert_eq!(entries, vec![a, b]);
}

#[test]
fn instance_hi_is_bit_two_and_instance_lo_bit_three() {
    // Only the high half is shared.
    let data = words(&[0b0100, 0xAAAA, 1, 2, 0xBBBB, 5, 6, 7, 8]);
    let (_, entries) = read_index(&data, 0, 1).unwrap();
    assert_eq!(entries[0].instance_hi, 0xAAAA);
    assert_eq!(entries[0].instance_lo, 0xBBBB);
    assert_eq!(entries[0], entry(1, 2, 0xAAAA, 0xBBBB, 5, 6, 7, 8, 0));
}

#[test]
fn truncated_index_is_reported() {
    assert_eq!(read_index(&[0, 0, 0], 0, 0), Err(Error::TruncatedInput));
    let data = words(&[0xFF, 1, 2, 3, 4, 5, 6, 7]);
    assert_eq!(read_index(&data, 0, 1), Err(Error::TruncatedInput));
    let data = words(&[0x00, 1, 2, 3, 4, 5, 6, 7]);
    assert_eq!(read_index(&data, 0, 1), Err(Error::TruncatedInput));
    assert_eq!(read_index(&data, 32, 0), Err(Error::TruncatedInput));
}

#[test]
fn reserved_mask_bits_are_kept_and_not_counted() {
    let data = words(&[0xABCD_0000, 1, 2, 3, 4, 5, 6, 7, 8]);
    let (mask, entries) = read_index(&data, 0, 1).unwrap();
    assert_eq!(mask.value, 0xABCD_0000);
    assert_eq!(entries, vec![entry(1, 2, 3, 4, 5, 6, 7, 8, 0)]);
}

#[test]
fn all_template_index_repeats_its_entry() {
    let data = words(&[0xFF, 1, 2, 3, 4, 5, 6, 7, 8]);
    let (_, entries) = read_index(&data, 0, 3).unwrap();
    assert_eq!(entries, vec![entry(1, 2, 3, 4, 5, 6, 7, 8, 0); 3]);
}
