use sims3_rs::dbpf::filetypes::geom::{
    geom_counts, geom_of_entry, geom_report, read_first_part, read_geom, report_order, GeomInfo,
    GeomReport,
};
use sims3_rs::dbpf::{ChunkHandle, DBPFIndexEntry, NeverReader};
use sims3_rs::error::Error;

fn le(x: u32) -> [u8; 4] {
    x.to_le_bytes()
}

/// A mesh of `vertices` vertices with attributes of 12 and 4 bytes, and the given submeshes
/// (size of an index, number of indices).
fn mesh(material: Option<&[u8]>, vertices: u32, submeshes: &[(u8, u32)]) -> Vec<u8> {
    let mut g = Vec::new();
    g.extend_from_slice(b"GEOM");
    for w in [5u32, 0x100, 0x10] {
        g.extend_from_slice(&le(w));
    }
    match material {
        None => g.extend_from_slice(&le(0)),
        Some(m) => {
            g.extend_from_slice(&le(0xABCD));
            g.extend_from_slice(&le(m.len() as u32));
            g.extend_from_slice(m);
        }
    }
    for w in [0u32, 0, vertices, 2] {
        g.extend_from_slice(&le(w));
    }
    for bytes in [12u8, 4] {
        g.extend_from_slice(&le(1));
        g.extend_from_slice(&le(2));
        g.push(bytes);
    }
    g.extend(std::iter::repeat(0xEE).take(16 * vertices as usize));
    g.extend_from_slice(&le(submeshes.len() as u32));
    for (size, count) in submeshes {
        g.push(*size);
        g.extend_from_slice(&le(*count));
        g.extend(std::iter::repeat(0x11).take(*size as usize * *count as usize));
    }
    g
}

/// A container with one outer reference and the given parts.
fn container(parts: &[&[u8]]) -> Vec<u8> {
    let n = parts.len() as u32;
    let mut d = Vec::new();
    for w in [3u32, 0, 0, 1, n] {
        d.extend_from_slice(&le(w));
    }
    d.extend(std::iter::repeat(0x22).take(16 * parts.len() + 16));
    let mut position = d.len() as u32 + 8 * n;
    for p in parts {
        d.extend_from_slice(&le(position));
        d.extend_from_slice(&le(p.len() as u32));
        position += p.len() as u32;
    }
    for p in parts {
        d.extend_from_slice(p);
    }
    d
}

#[test]
fn mesh_counts() {
    let g = mesh(None, 4, &[(2, 6), (2, 3)]);
    assert_eq!(read_geom(&g), Ok(GeomInfo { vertex_count: 4, index_count: 9, submeshes: 2 }));
    let g = mesh(Some(b"material"), 3, &[(4, 3)]);
    assert_eq!(read_geom(&g), Ok(GeomInfo { vertex_count: 3, index_count: 3, submeshes: 1 }));
    let g = mesh(None, 0, &[]);
    assert_eq!(read_geom(&g), Ok(GeomInfo { vertex_count: 0, index_count: 0, submeshes: 0 }));
}

#[test]
fn indices_of_the_last_submesh_may_be_missing() {
    let mut g = mesh(None, 1, &[(2, 3), (2, 4)]);
    g.truncate(g.len() - 8);
    assert_eq!(read_geom(&g), Ok(GeomInfo { vertex_count: 1, index_count: 7, submeshes: 2 }));
    g.truncate(g.len() - 1);
    assert_eq!(read_geom(&g), Err(Error::TruncatedInput));
}

#[test]
fn mesh_errors() {
    assert_eq!(read_geom(b"GEO"), Err(Error::TruncatedInput));
    assert_eq!(read_geom(b"GEOX............"), Err(Error::BadMagic));
    let g = mesh(None, 4, &[(2, 6)]);
    for cut in [16, 19, 30, 36, 50, 54, 60, 118, 121, 123] {
        assert_eq!(read_geom(&g[..cut]), Err(Error::TruncatedInput));
    }
    assert!(read_geom(&g[..127]).is_ok());
    // The embedded material runs past the end.
    let mut g = mesh(Some(b"m"), 0, &[]);
    g[20] = 0xFF;
    assert_eq!(read_geom(&g), Err(Error::TruncatedInput));
}

#[test]
fn first_part_of_a_container() {
    let a = mesh(None, 4, &[(2, 6)]);
    let d = container(&[&a, b"second"]);
    let (position, size) = read_first_part(&d).unwrap();
    assert_eq!(&d[position..position + size], &a[..]);
    assert_eq!(geom_counts(&d), Ok(GeomInfo { vertex_count: 4, index_count: 6, submeshes: 1 }));
}

#[test]
fn container_errors() {
    let a = mesh(None, 4, &[(2, 6)]);
    let d = container(&[&a, b"second"]);
    assert_eq!(geom_counts(&d[..3]), Err(Error::TruncatedInput));
    assert_eq!(geom_counts(&d[..19]), Err(Error::TruncatedInput));
    assert_eq!(geom_counts(&d[..80]), Err(Error::TruncatedInput));
    // The second part does not lie within the container.
    assert_eq!(geom_counts(&d[..d.len() - 1]), Err(Error::TruncatedInput));
    let mut other = d.clone();
    other[0] = 4;
    assert_eq!(geom_counts(&other), Err(Error::BadVersion));
    assert_eq!(geom_counts(&container(&[])), Err(Error::TruncatedInput));
    assert_eq!(geom_counts(&container(&[b"GEOX"])), Err(Error::BadMagic));
}

#[test]
fn geometry_of_an_entry() {
    let a = mesh(None, 2, &[(2, 3)]);
    let mut entry = DBPFIndexEntry {
        resource_type: 0x015A_1849,
        resource_group: 0,
        instance: 1,
        unk1: false,
        unk2: 0,
        chunk: ChunkHandle::Dirty { decompressed: container(&[&a]), should_compress: false },
    };
    assert_eq!(
        geom_of_entry(&NeverReader::Unwritten, &entry),
        Ok(GeomInfo { vertex_count: 2, index_count: 3, submeshes: 1 })
    );
    entry.resource_type = 0x0166_038C;
    assert_eq!(geom_of_entry(&NeverReader::Unwritten, &entry), Err(Error::WrongResourceType));
}

fn info(vertex_count: u32, index_count: u64, submeshes: u32) -> GeomInfo {
    GeomInfo { vertex_count, index_count, submeshes }
}

#[test]
fn report_lists_the_largest_first_and_among_equals_the_later() {
    let list = vec![info(1, 30, 1), info(2, 90, 1), info(3, 30, 2), info(4, 60, 1)];
    assert_eq!(report_order(&list), vec![1, 3, 2, 0]);
    assert_eq!(report_order(&Vec::new()), Vec::<usize>::new());
}

#[test]
fn report_of_meshes() {
    assert_eq!(geom_report(&Vec::new()), None);
    let list = vec![info(50, 30, 1), info(40, 90, 3), info(3, 31, 2)];
    assert_eq!(
        geom_report(&list),
        Some(GeomReport { polygons: vec![30, 10, 10], vertices: 40, more_vertices: true, submeshes: 3 })
    );
    let list = vec![info(30, 90, 1)];
    assert_eq!(
        geom_report(&list),
        Some(GeomReport { polygons: vec![30], vertices: 30, more_vertices: false, submeshes: 1 })
    );
}
