use sims3_rs::dbpf::query::{
    filter_tgi_into_map, find_entry, find_name, pack_tgi, shares_tgi, type_is_content, unpack_tgi,
};
use sims3_rs::dbpf::{ChunkHandle, DBPFIndexEntry};
use std::collections::{BTreeMap, HashSet};

const CASP: u32 = 0x034A_EECB;
const XML: u32 = 0x0333_406C;
const OBJD: u32 = 0x319E_4F1D;
const FACE: u32 = 0x0358_B08A;
const SKIN: u32 = 0x0354_796A;
const GEOM: u32 = 0x015A_1849;

fn entry(t: u32, g: u32, i: u64) -> DBPFIndexEntry {
    DBPFIndexEntry {
        resource_type: t,
        resource_group: g,
        instance: i,
        unk1: false,
        unk2: 0,
        chunk: ChunkHandle::Dirty { decompressed: Vec::new(), should_compress: false },
    }
}

fn keys(tgis: &[(u32, u32, u64)]) -> HashSet<u128> {
    tgis.iter().map(|&(t, g, i)| pack_tgi(t, g, i)).collect()
}

#[test]
fn merged_policy_keeps_xml_and_the_other_drops_it() {
    let entries = vec![entry(CASP, 0, 1), entry(CASP, 0, 2), entry(XML, 0, 3), entry(OBJD, 0, 4)];
    assert_eq!(
        filter_tgi_into_map(&entries, false),
        keys(&[(CASP, 0, 1), (CASP, 0, 2), (OBJD, 0, 4)])
    );
    assert_eq!(
        filter_tgi_into_map(&entries, true),
        keys(&[(CASP, 0, 1), (CASP, 0, 2), (XML, 0, 3), (OBJD, 0, 4)])
    );
}

#[test]
fn xml_counts_where_nothing_else_does() {
    let entries = vec![entry(GEOM, 0, 1), entry(XML, 0, 3), entry(XML, 1, 3)];
    assert_eq!(filter_tgi_into_map(&entries, false), keys(&[(XML, 0, 3), (XML, 1, 3)]));
    assert_eq!(filter_tgi_into_map(&entries, true), keys(&[(XML, 0, 3), (XML, 1, 3)]));
    assert_eq!(filter_tgi_into_map(&vec![entry(GEOM, 0, 1)], false), HashSet::new());
    assert_eq!(filter_tgi_into_map(&Vec::new(), true), HashSet::new());
}

#[test]
fn duplicates_count_once() {
    let entries = vec![entry(FACE, 2, 9), entry(SKIN, 2, 9), entry(FACE, 2, 9)];
    assert_eq!(filter_tgi_into_map(&entries, false).len(), 2);
}

#[test]
fn content_types() {
    for t in [CASP, FACE, SKIN, OBJD] {
        assert!(type_is_content(t, false));
        assert!(type_is_content(t, true));
    }
    assert!(type_is_content(XML, true));
    assert!(!type_is_content(XML, false));
    assert!(!type_is_content(GEOM, true));
}

#[test]
fn keys_pack_type_group_and_instance() {
    assert_eq!(pack_tgi(1, 2, 3), (1u128 << 96) | (2u128 << 64) | 3);
    assert_eq!(pack_tgi(u32::MAX, u32::MAX, u64::MAX), u128::MAX);
    assert_eq!(unpack_tgi(pack_tgi(0xDEAD_BEEF, 7, 0x0123_4567_89AB_CDEF)), (0xDEAD_BEEF, 7, 0x0123_4567_89AB_CDEF));
    assert_eq!(unpack_tgi(0), (0, 0, 0));
}

#[test]
fn archives_that_share_a_resource() {
    let merged = vec![entry(CASP, 0, 1), entry(XML, 0, 3)];
    let find = filter_tgi_into_map(&merged, true);
    assert!(shares_tgi(&find, &vec![entry(GEOM, 0, 0), entry(CASP, 0, 1)]));
    assert!(!shares_tgi(&find, &vec![entry(CASP, 0, 2), entry(CASP, 1, 1)]));
    // The XML of a package with other content does not count; alone it does.
    assert!(!shares_tgi(&find, &vec![entry(CASP, 0, 2), entry(XML, 0, 3)]));
    assert!(shares_tgi(&find, &vec![entry(GEOM, 0, 2), entry(XML, 0, 3)]));
    assert!(!shares_tgi(&find, &Vec::new()));
}

#[test]
fn first_matching_entry_is_found() {
    let entries = vec![entry(1, 2, 3), entry(4, 5, 6), entry(1, 2, 3), entry(1, 2, 4)];
    assert_eq!(find_entry(&entries, 1, 2, 3), Some(0));
    assert_eq!(find_entry(&entries, 4, 5, 6), Some(1));
    assert_eq!(find_entry(&entries, 1, 2, 4), Some(3));
    assert_eq!(find_entry(&entries, 1, 2, 5), None);
    assert_eq!(find_entry(&entries, 1, 3, 3), None);
    assert_eq!(find_entry(&Vec::new(), 1, 2, 3), None);
}

#[test]
fn name_of_an_archive() {
    let mut names = BTreeMap::new();
    names.insert(10u64, "ten".to_string());
    names.insert(20u64, "twenty".to_string());
    let entries = vec![
        entry(GEOM, 0, 10),
        entry(CASP, 0, 11),
        entry(0xB52F_5055, 0, 20),
        entry(OBJD, 0, 10),
    ];
    assert_eq!(find_name(&entries, &names), Some(&"twenty".to_string()));
    assert_eq!(find_name(&entries[..2].to_vec(), &names), None);
    assert_eq!(find_name(&vec![entry(0x0166_038C, 0, 10)], &names), Some(&"ten".to_string()));
    assert_eq!(find_name(&entries, &BTreeMap::new()), None);
}
