use sims3_rs::dbpf::filetypes::nmap::{gather_names_into, read_records, NMAP};
use sims3_rs::dbpf::{ChunkHandle, DBPFIndexEntry, NeverReader, DBPF};
use sims3_rs::error::Error;
use std::collections::BTreeMap;

fn nmap_bytes(records: &[(u64, &[u8])]) -> Vec<u8> {
    let mut v = Vec::new();
    v.extend_from_slice(&1u32.to_le_bytes());
    v.extend_from_slice(&(records.len() as u32).to_le_bytes());
    for (instance, name) in records {
        v.extend_from_slice(&instance.to_le_bytes());
        v.extend_from_slice(&(name.len() as u32).to_le_bytes());
        v.extend_from_slice(name);
    }
    v
}

fn nmap_entry(bytes: Vec<u8>) -> DBPFIndexEntry {
    DBPFIndexEntry {
        resource_type: 0x0166_038C,
        resource_group: 0,
        instance: 0,
        unk1: false,
        unk2: 0,
        chunk: ChunkHandle::Dirty { decompressed: bytes, should_compress: false },
    }
}

fn names(pairs: &[(u64, &str)]) -> BTreeMap<u64, String> {
    pairs.iter().map(|(k, v)| (*k, v.to_string())).collect()
}

#[test]
fn name_map_with_two_entries() {
    let mut archive = DBPF::new();
    archive.entries.push(nmap_entry(nmap_bytes(&[(7, b"foo"), (9, b"bar")])));
    let got = archive.gather_names(&NeverReader::Unwritten).unwrap();
    assert_eq!(got, names(&[(7, "foo"), (9, "bar")]));
}

#[test]
fn gathering_twice_gives_the_same() {
    let mut archive = DBPF::new();
    archive.entries.push(nmap_entry(nmap_bytes(&[(7, b"foo"), (9, b"bar"), (7, b"baz")])));
    let first = archive.gather_names(&NeverReader::Unwritten).unwrap();
    let second = archive.gather_names(&NeverReader::Unwritten).unwrap();
    assert_eq!(first, second);
    assert_eq!(first, names(&[(7, "baz"), (9, "bar")]));
}

#[test]
fn later_name_maps_win_and_other_entries_are_passed_over() {
    let mut archive = DBPF::new();
    archive.entries.push(nmap_entry(nmap_bytes(&[(1, b"one"), (2, b"two")])));
    let mut other = nmap_entry(b"not a name map".to_vec());
    other.resource_type = 0x015A_1849;
    archive.entries.push(other);
    archive.entries.push(nmap_entry(nmap_bytes(&[(2, b"deux"), (3, b"trois")])));
    let got = archive.gather_names(&NeverReader::Unwritten).unwrap();
    assert_eq!(got, names(&[(1, "one"), (2, "deux"), (3, "trois")]));
}

#[test]
fn archive_without_name_maps_has_no_names() {
    let archive = DBPF::new();
    assert_eq!(archive.gather_names(&NeverReader::Unwritten), Ok(BTreeMap::new()));
}

#[test]
fn invalid_utf8_becomes_replacement_characters() {
    let mut map = BTreeMap::new();
    let entry = nmap_entry(nmap_bytes(&[(5, b"a\xFFb"), (6, "gr\u{fc}n".as_bytes())]));
    assert_eq!(gather_names_into(&NeverReader::Unwritten, &entry, &mut map), Ok(()));
    assert_eq!(map, names(&[(5, "a\u{FFFD}b"), (6, "gr\u{fc}n")]));
}

#[test]
fn gather_names_into_extends_and_replaces() {
    let mut map = names(&[(1, "old"), (4, "kept")]);
    let entry = nmap_entry(nmap_bytes(&[(1, b"new"), (2, b"added")]));
    assert_eq!(gather_names_into(&NeverReader::Unwritten, &entry, &mut map), Ok(()));
    assert_eq!(map, names(&[(1, "new"), (2, "added"), (4, "kept")]));
}

#[test]
fn other_resource_types_are_refused() {
    let mut map = names(&[(1, "old")]);
    let mut entry = nmap_entry(nmap_bytes(&[(1, b"new")]));
    entry.resource_type = 0x0166_038D;
    assert_eq!(
        gather_names_into(&NeverReader::Unwritten, &entry, &mut map),
        Err(Error::WrongResourceType)
    );
    assert_eq!(map, names(&[(1, "old")]));
}

#[test]
fn broken_name_map_leaves_the_names_alone() {
    let mut map = names(&[(1, "old")]);
    let mut bytes = nmap_bytes(&[(1, b"new"), (2, b"cut")]);
    bytes.pop();
    let entry = nmap_entry(bytes);
    assert_eq!(
        gather_names_into(&NeverReader::Unwritten, &entry, &mut map),
        Err(Error::TruncatedInput)
    );
    assert_eq!(map, names(&[(1, "old")]));
    let mut archive = DBPF::new();
    archive.entries.push(entry);
    assert_eq!(archive.gather_names(&NeverReader::Unwritten), Err(Error::TruncatedInput));
}

#[test]
fn name_map_errors() {
    assert_eq!(read_records(&[1, 0, 0]).err(), Some(Error::TruncatedInput));
    assert_eq!(read_records(&[2, 0, 0, 0, 0, 0, 0, 0]).err(), Some(Error::BadVersion));
    assert_eq!(read_records(&[1, 0, 0, 0, 0, 0]).err(), Some(Error::TruncatedInput));
    assert_eq!(read_records(&[1, 0, 0, 0, 1, 0, 0, 0, 9, 9]).err(), Some(Error::TruncatedInput));
    assert_eq!(read_records(&[1, 0, 0, 0, 0, 0, 0, 0, 9, 9]).map(|r| r.len()), Ok(0));
}

#[test]
fn records_keep_the_order_of_the_file() {
    let records = read_records(&nmap_bytes(&[(9, b"z"), (7, b""), (9, b"a")])).unwrap();
    let got: Vec<(u64, Vec<u8>)> = records.into_iter().map(|(k, v)| (k, v.inner)).collect();
    assert_eq!(got, vec![(9, b"z".to_vec()), (7, vec![]), (9, b"a".to_vec())]);
}

#[test]
fn name_map_keeps_the_last_name_of_an_instance() {
    let nmap = NMAP::read(&nmap_bytes(&[(9, b"z"), (7, b"seven"), (9, b"a")])).unwrap();
    let got: Vec<(u64, Vec<u8>)> = nmap.map.into_iter().map(|(k, v)| (k, v.inner)).collect();
    assert_eq!(got, vec![(7, b"seven".to_vec()), (9, b"a".to_vec())]);
}

#[test]
fn name_map_is_written_by_instance() {
    let nmap = NMAP::read(&nmap_bytes(&[(9, b"z"), (7, b"seven"), (9, b"a")])).unwrap();
    let mut out = vec![0xAB];
    assert_eq!(nmap.write(&mut out), Ok(()));
    let mut want = vec![0xAB];
    want.extend_from_slice(&nmap_bytes(&[(7, b"seven"), (9, b"a")]));
    assert_eq!(out, want);
    let again = NMAP::read(&out[1..]).unwrap();
    assert_eq!(again.map, nmap.map);
}

#[test]
fn empty_name_map_is_version_and_count() {
    let nmap = NMAP::read(&nmap_bytes(&[])).unwrap();
    let mut out = Vec::new();
    assert_eq!(nmap.write(&mut out), Ok(()));
    assert_eq!(out, vec![1, 0, 0, 0, 0, 0, 0, 0]);
}
