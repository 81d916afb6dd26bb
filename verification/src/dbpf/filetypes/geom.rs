//! Counting the vertices and triangles of a geometry chunk.
//!
//! A geometry chunk is a container, `RCOL`, whose first part is a mesh,
//! `GEOM`. Only what the counts need is read: the tables of the container,
//! and of the mesh the vertex count and the index counts of its submeshes.
//! All numbers are little-endian.

use crate::dbpf::DBPFIndexEntry;
use crate::dbpf::EntryView;
use crate::dbpf::FileCtx;
use crate::dbpf::ReadSeek;
use crate::error::Error;
use crate::util::le_u32;
use crate::util::read_u32_le;
use vstd::prelude::*;
use vstd::slice::slice_subrange;

verus! {

/// The version of the containers that are understood.
pub const RCOL_VERSION: u32 = 3;

/// The code of the resource type of geometry.
pub const GEOM_TYPE: u32 = 0x015A_1849;

/// The bytes `GEOM`, read as a little-endian word.
pub const GEOM_MAGIC: u32 = 0x4D4F_4547;

/// The counts of one mesh.
#[derive(Debug, Clone, Copy, PartialEq, Eq, Structural)]
pub struct GeomInfo {
    /// The number of vertices.
    pub vertex_count: u32,
    /// The number of indices of all submeshes: three for each triangle.
    pub index_count: u64,
    /// The number of submeshes.
    pub submeshes: u32,
}

/// The 32-bit number at `p` of `s`, or `None` where `s` ends before it
/// does.
pub open spec fn u32_at(s: Seq<u8>, p: int) -> Option<u32> {
    if 0 <= p && p + 4 <= s.len() {
        Some(le_u32(s.subrange(p, p + 4)))
    } else {
        None
    }
}

/// Reads the 32-bit number at `pos`; `TruncatedInput` where the data ends
/// before it does.
pub fn read_u32_at(data: &[u8], pos: usize) -> (r: Result<u32, Error>)
    ensures
        match u32_at(data@, pos as int) {
            Some(x) => r == Ok::<u32, Error>(x),
            None => r == Err::<u32, Error>(Error::TruncatedInput),
        },
{
    let len = data.len();
    if pos > len || len - pos < 4 {
        Err(Error::TruncatedInput)
    } else {
        Ok(read_u32_le(data, pos))
    }
}

/// `pos + n` where that is within `len`, and `None` where it is beyond.
pub fn advance(pos: usize, n: u128, len: usize) -> (r: Option<usize>)
    requires
        pos <= len,
    ensures
        pos + n <= len ==> r == Some((pos + n) as usize),
        pos + n > len ==> r.is_none(),
{
    if n <= (len - pos) as u128 {
        Some(pos + n as usize)
    } else {
        None
    }
}

/// The first part of the container `d`: the bytes of its first chunk.
///
/// The container starts with the version 3, three words of which the last
/// two count the outer and the inner references, and the number of its
/// parts. Then come a reference of 16 bytes for each part, the outer
/// references of 16 bytes each, and for each part its position in the
/// container and its size.
///
/// `TruncatedInput` where the container ends within these tables, where a
/// part does not lie within the container, or where there is no part;
/// `BadVersion` where the version is not 3.
pub open spec fn first_part(d: Seq<u8>) -> Result<Seq<u8>, Error> {
    if d.len() < 4 {
        Err(Error::TruncatedInput)
    } else if u32_at(d, 0) != Some(RCOL_VERSION) {
        Err(Error::BadVersion)
    } else if d.len() < 20 {
        Err(Error::TruncatedInput)
    } else {
        let outer = u32_at(d, 12).unwrap() as int;
        let parts = u32_at(d, 16).unwrap() as int;
        let table = 20 + 16 * parts + 16 * outer;
        if table + 8 * parts > d.len() {
            Err(Error::TruncatedInput)
        } else if !parts_within(d, table, parts) {
            Err(Error::TruncatedInput)
        } else if parts == 0 {
            Err(Error::TruncatedInput)
        } else {
            Ok(
                d.subrange(
                    u32_at(d, table).unwrap() as int,
                    u32_at(d, table).unwrap() + u32_at(d, table + 4).unwrap(),
                ),
            )
        }
    }
}

/// Whether each of the first `n` parts that the table at `table` names
/// lies within the container.
pub open spec fn parts_within(d: Seq<u8>, table: int, n: int) -> bool {
    forall|i: int|
        0 <= i < n ==> (#[trigger] u32_at(d, table + 8 * i)).unwrap() + u32_at(
            d,
            table + 8 * i + 4,
        ).unwrap() <= d.len()
}

/// Reads the tables of the container `d` and returns where its first part
/// lies: its position and its size. See [`first_part`].
pub fn read_first_part(d: &[u8]) -> (r: Result<(usize, usize), Error>)
    ensures
        match first_part(d@) {
            Ok(part) => r.is_ok() && r.unwrap().0 + r.unwrap().1 <= d@.len() && d@.subrange(
                r.unwrap().0 as int,
                r.unwrap().0 + r.unwrap().1,
            ) == part,
            Err(e) => r == Err::<(usize, usize), Error>(e),
        },
{
    let len = d.len();
    if len < 4 {
        return Err(Error::TruncatedInput);
    }
    if read_u32_le(d, 0) != RCOL_VERSION {
        return Err(Error::BadVersion);
    }
    if len < 20 {
        return Err(Error::TruncatedInput);
    }
    let outer: u64 = read_u32_le(d, 12) as u64;
    let parts: u64 = read_u32_le(d, 16) as u64;
    let end: u64 = 20 + 16 * parts + 16 * outer + 8 * parts;
    if end > len as u64 {
        return Err(Error::TruncatedInput);
    }
    let table: usize = (20 + 16 * parts + 16 * outer) as usize;
    let mut i: usize = 0;
    while i < parts as usize
        invariant
            i <= parts,
            len == d@.len(),
            len >= 20,
            u32_at(d@, 0) == Some(RCOL_VERSION),
            outer == u32_at(d@, 12).unwrap(),
            parts == u32_at(d@, 16).unwrap(),
            table == 20 + 16 * parts + 16 * outer,
            table + 8 * parts <= len,
            parts_within(d@, table as int, i as int),
        decreases parts - i,
    {
        let position = read_u32_le(d, table + 8 * i) as u64;
        let size = read_u32_le(d, table + 8 * i + 4) as u64;
        if position + size > len as u64 {
            assert(!parts_within(d@, table as int, parts as int)) by {
                assert(u32_at(d@, table + 8 * i).unwrap() == position);
            }
            return Err(Error::TruncatedInput);
        }
        i += 1;
    }
    if parts == 0 {
        return Err(Error::TruncatedInput);
    }
    assert(u32_at(d@, table + 8 * 0).unwrap() + u32_at(d@, table + 8 * 0 + 4).unwrap() <= len);
    let position = read_u32_le(d, table) as usize;
    let size = read_u32_le(d, table + 4) as usize;
    Ok((position, size))
}

/// The numbers of bytes that the first `i` vertex attributes, listed from
/// `at` on, take in a vertex, added up. An attribute is listed in 9 bytes,
/// of which the last is its number of bytes.
pub open spec fn stride(g: Seq<u8>, at: int, i: int) -> int
    decreases i,
{
    if i <= 0 {
        0
    } else {
        stride(g, at, i - 1) + g[at + 9 * (i - 1) + 8]
    }
}

/// Where submesh `i` of the submeshes listed from `base` on starts, or
/// `None` where the mesh ends within the submesh before it. A submesh is
/// the size of an index in one byte, the number of indices, and the
/// indices.
pub open spec fn submesh_start(g: Seq<u8>, base: int, i: int) -> Option<int>
    decreases i,
{
    if i <= 0 {
        Some(base)
    } else {
        match submesh_start(g, base, i - 1) {
            None => None,
            Some(q) => if q + 5 > g.len() {
                None
            } else {
                Some(q + 5 + g[q] * u32_at(g, q + 1).unwrap())
            },
        }
    }
}

/// The numbers of indices of the first `i` submeshes, added up.
pub open spec fn index_sum(g: Seq<u8>, base: int, i: int) -> int
    decreases i,
{
    if i <= 0 {
        0
    } else {
        index_sum(g, base, i - 1) + u32_at(g, submesh_start(g, base, i - 1).unwrap() + 1).unwrap()
    }
}

/// Where the second half of the head of the mesh `g` starts: behind the
/// five words of the first half and, where the material id is not 0, behind
/// the embedded material, which is stored behind its size.
pub open spec fn body_start(g: Seq<u8>) -> Option<int> {
    if u32_at(g, 16) is None {
        None
    } else if u32_at(g, 16).unwrap() == 0 {
        Some(20)
    } else if u32_at(g, 20) is None {
        None
    } else {
        Some(24 + u32_at(g, 20).unwrap())
    }
}

/// The counts of the mesh `g`.
///
/// The mesh starts with the bytes `GEOM`, a version, two words about a
/// table, and the material id, with the embedded material where the id is
/// not 0. Then come two words, the vertex count and the number of vertex
/// attributes, the attributes, the vertices, the number of submeshes, and
/// the submeshes.
///
/// `TruncatedInput` where the mesh ends before the last submesh starts or
/// within its first five bytes; `BadMagic` where the mesh does not start
/// with `GEOM`.
pub open spec fn geom_info(g: Seq<u8>) -> Result<GeomInfo, Error> {
    if u32_at(g, 0) is None {
        Err(Error::TruncatedInput)
    } else if u32_at(g, 0).unwrap() != GEOM_MAGIC {
        Err(Error::BadMagic)
    } else if body_start(g) is None || body_start(g).unwrap() + 16 > g.len() {
        Err(Error::TruncatedInput)
    } else {
        let body = body_start(g).unwrap();
        let vertices = u32_at(g, body + 8).unwrap();
        let attributes = u32_at(g, body + 12).unwrap() as int;
        let list = body + 16;
        if list + 9 * attributes > g.len() {
            Err(Error::TruncatedInput)
        } else {
            let counted = list + 9 * attributes + stride(g, list, attributes) * vertices;
            if u32_at(g, counted) is None {
                Err(Error::TruncatedInput)
            } else {
                let submeshes = u32_at(g, counted).unwrap();
                if submesh_start(g, counted + 4, submeshes as int) is None {
                    Err(Error::TruncatedInput)
                } else {
                    Ok(
                        GeomInfo {
                            vertex_count: vertices,
                            index_count: index_sum(g, counted + 4, submeshes as int) as u64,
                            submeshes,
                        },
                    )
                }
            }
        }
    }
}

/// Once the submeshes run out of bytes, they do so for every larger count.
pub proof fn lemma_submesh_start_none(g: Seq<u8>, base: int, i: int, n: int)
    requires
        i <= n,
        submesh_start(g, base, i) is None,
    ensures
        submesh_start(g, base, n) is None,
    decreases n - i,
{
    if i < n {
        lemma_submesh_start_none(g, base, i, n - 1);
    }
}

/// Reads the counts of the mesh `g`; see [`geom_info`].
pub fn read_geom(g: &[u8]) -> (r: Result<GeomInfo, Error>)
    ensures
        r == geom_info(g@),
{
    let len = g.len();
    if read_u32_at(g, 0)? != GEOM_MAGIC {
        return Err(Error::BadMagic);
    }
    let material = read_u32_at(g, 16)?;
    let body: usize = if material == 0 {
        20
    } else {
        let size = read_u32_at(g, 20)?;
        match advance(24, size as u128, len) {
            Some(body) => body,
            None => {
                return Err(Error::TruncatedInput);
            },
        }
    };
    if len - body < 16 {
        return Err(Error::TruncatedInput);
    }
    let vertices: u32 = read_u32_le(g, body + 8);
    let attributes: u64 = read_u32_le(g, body + 12) as u64;
    let list: usize = body + 16;
    if 9 * attributes > (len - list) as u64 {
        return Err(Error::TruncatedInput);
    }
    let mut total: u64 = 0;
    let mut i: usize = 0;
    while i < attributes as usize
        invariant
            i <= attributes <= 0xFFFF_FFFF,
            len == g@.len(),
            list + 9 * attributes <= len,
            total == stride(g@, list as int, i as int),
            total <= 255 * i,
        decreases attributes - i,
    {
        total += g[list + 9 * i + 8] as u64;
        i += 1;
    }
    assert(total * vertices <= 0xFFFF_FFFF_FFFF_FFFF * 0xFFFF_FFFF) by (nonlinear_arith)
        requires
            0 <= total <= 0xFFFF_FFFF_FFFF_FFFF,
            0 <= vertices <= 0xFFFF_FFFF,
    ;
    let vertex_bytes: u128 = total as u128 * vertices as u128;
    let counted: usize = match advance(list + 9 * attributes as usize, vertex_bytes, len) {
        Some(counted) => counted,
        None => {
            return Err(Error::TruncatedInput);
        },
    };
    let submeshes: u32 = read_u32_at(g, counted)?;
    let ghost base = counted + 4;
    let ghost whole = if submesh_start(g@, base, submeshes as int) is None {
        Err::<GeomInfo, Error>(Error::TruncatedInput)
    } else {
        Ok::<GeomInfo, Error>(
            GeomInfo {
                vertex_count: vertices,
                index_count: index_sum(g@, base, submeshes as int) as u64,
                submeshes,
            },
        )
    };
    assert(geom_info(g@) == whole);
    let mut pos: Option<usize> = Some(counted + 4);
    let mut sum: u64 = 0;
    let mut i: u32 = 0;
    while i < submeshes
        invariant
            i <= submeshes,
            len == g@.len(),
            base == counted + 4,
            geom_info(g@) == whole,
            whole == (if submesh_start(g@, base, submeshes as int) is None {
                Err::<GeomInfo, Error>(Error::TruncatedInput)
            } else {
                Ok::<GeomInfo, Error>(
                    GeomInfo {
                        vertex_count: vertices,
                        index_count: index_sum(g@, base, submeshes as int) as u64,
                        submeshes,
                    },
                )
            }),
            (submesh_start(g@, base, i as int) matches Some(q) && q >= 0 && (q <= len ==> pos == Some(
                q as usize,
            )) && (q > len ==> pos.is_none())),
            sum == index_sum(g@, base, i as int),
            sum <= i * 0xFFFF_FFFF,
        decreases submeshes - i,
    {
        let q: usize = match pos {
            Some(q) => q,
            None => {
                proof {
                    lemma_submesh_start_none(g@, base, i + 1, submeshes as int);
                }
                return Err(Error::TruncatedInput);
            },
        };
        if len - q < 5 {
            proof {
                lemma_submesh_start_none(g@, base, i + 1, submeshes as int);
            }
            return Err(Error::TruncatedInput);
        }
        let index_size: u128 = g[q] as u128;
        let index_count: u32 = read_u32_le(g, q + 1);
        assert(index_size * index_count <= 255 * 0xFFFF_FFFF) by (nonlinear_arith)
            requires
                0 <= index_size <= 255,
                0 <= index_count <= 0xFFFF_FFFF,
        ;
        assert(0 <= index_size * index_count) by (nonlinear_arith)
            requires
                0 <= index_size,
                0 <= index_count,
        ;
        sum += index_count as u64;
        pos = advance(q + 5, index_size * index_count as u128, len);
        i += 1;
    }
    Ok(GeomInfo { vertex_count: vertices, index_count: sum, submeshes })
}

/// The counts of the mesh in the geometry chunk `chunk`: those of the first
/// part of the container.
pub open spec fn chunk_geom(chunk: Seq<u8>) -> Result<GeomInfo, Error> {
    match first_part(chunk) {
        Err(e) => Err(e),
        Ok(part) => geom_info(part),
    }
}

/// Reads the counts of the mesh in the geometry chunk `chunk`.
pub fn geom_counts(chunk: &[u8]) -> (r: Result<GeomInfo, Error>)
    ensures
        r == chunk_geom(chunk@),
{
    let len = chunk.len();
    let (position, size) = read_first_part(chunk)?;
    assert(position + size <= len);
    read_geom(slice_subrange(chunk, position, position + size))
}

/// The counts of the mesh of `entry`, under a context with the file
/// `source` and the brand `ctx_brand`.
///
/// `WrongResourceType` where the entry is not geometry; else the error of
/// reading the chunk; else the error of parsing it.
pub open spec fn entry_geom(entry: EntryView, source: Seq<u8>, ctx_brand: Option<u64>) -> Result<
    GeomInfo,
    Error,
> {
    if entry.resource_type != GEOM_TYPE {
        Err(Error::WrongResourceType)
    } else {
        match entry.chunk.content(source, ctx_brand) {
            Err(e) => Err(e),
            Ok(bytes) => chunk_geom(bytes),
        }
    }
}

/// Reads the chunk of the geometry entry `entry` and counts its mesh.
pub fn geom_of_entry<Ctx: FileCtx>(ctx: &Ctx, entry: &DBPFIndexEntry) -> (r: Result<
    GeomInfo,
    Error,
>)
    ensures
        r == entry_geom(entry@, ctx.source(), ctx.brand()),
{
    if entry.resource_type != GEOM_TYPE {
        return Err(Error::WrongResourceType);
    }
    let mut reader = entry.chunk.get_reader(ctx)?;
    let bytes = reader.read_to_end();
    assert(bytes@ =~= reader.stream());
    geom_counts(bytes.as_slice())
}

/// Whether mesh `a` of `list` is reported before mesh `b`: it has more
/// indices, or as many and stands later in the list.
pub open spec fn reported_before(list: Seq<GeomInfo>, a: int, b: int) -> bool {
    list[a].index_count > list[b].index_count || (list[a].index_count == list[b].index_count && a
        > b)
}

/// Whether `order` lists the places of all meshes of `list`, each once, in
/// the order of the report.
pub open spec fn is_report_order(list: Seq<GeomInfo>, order: Seq<usize>) -> bool {
    &&& order.len() == list.len()
    &&& forall|p: int| 0 <= p < order.len() ==> (#[trigger] order[p]) < list.len()
    &&& forall|p: int, q: int|
        0 <= p < q < order.len() ==> reported_before(list, #[trigger] order[p] as int, #[trigger] order[q] as int)
}

/// The places of the meshes of `list` in the order of the report: by the
/// number of indices, largest first, and among equals the later first.
pub fn report_order(list: &Vec<GeomInfo>) -> (r: Vec<usize>)
    ensures
        is_report_order(list@, r@),
{
    let mut order: Vec<usize> = Vec::new();
    let mut i: usize = 0;
    while i < list.len()
        invariant
            i <= list@.len(),
            order@.len() == i,
            forall|p: int| 0 <= p < order@.len() ==> (#[trigger] order@[p]) < i,
            forall|p: int, q: int|
                0 <= p < q < order@.len() ==> reported_before(
                    list@,
                    #[trigger] order@[p] as int,
                    #[trigger] order@[q] as int,
                ),
        decreases list@.len() - i,
    {
        // The new mesh goes before the first that has no more indices.
        let mut at: usize = 0;
        while at < order.len() && list[order[at]].index_count > list[i].index_count
            invariant
                at <= order@.len(),
                i < list@.len(),
                forall|p: int| 0 <= p < order@.len() ==> (#[trigger] order@[p]) < i,
                forall|p: int|
                    0 <= p < at ==> list@[(#[trigger] order@[p]) as int].index_count
                        > list@[i as int].index_count,
            decreases order@.len() - at,
        {
            at += 1;
        }
        let ghost before = order@;
        order.insert(at, i);
        proof {
            assert forall|p: int, q: int| 0 <= p < q < order@.len() implies reported_before(
                list@,
                #[trigger] order@[p] as int,
                #[trigger] order@[q] as int,
            ) by {
                if q < at {
                    assert(order@[p] == before[p] && order@[q] == before[q]);
                } else if q == at {
                    assert(order@[p] == before[p]);
                } else if p < at {
                    assert(order@[p] == before[p] && order@[q] == before[q - 1]);
                } else if p == at {
                    assert(order@[q] == before[q - 1]);
                    if q - 1 > at {
                        assert(reported_before(list@, before[at as int] as int, before[q - 1] as int));
                    }
                } else {
                    assert(order@[p] == before[p - 1] && order@[q] == before[q - 1]);
                }
            }
            assert forall|p: int| 0 <= p < order@.len() implies (#[trigger] order@[p]) < i + 1 by {
                if p < at {
                    assert(order@[p] == before[p]);
                } else if p > at {
                    assert(order@[p] == before[p - 1]);
                }
            }
        }
        i += 1;
    }
    order
}

/// What is reported of the meshes of an archive.
#[derive(Debug, Clone, PartialEq, Eq)]
pub struct GeomReport {
    /// The numbers of triangles of all meshes, in the order of the report.
    pub polygons: Vec<u64>,
    /// The number of vertices of the mesh with the most triangles.
    pub vertices: u32,
    /// Whether that mesh has more vertices than triangles.
    pub more_vertices: bool,
    /// The number of submeshes of that mesh.
    pub submeshes: u32,
}

/// Whether `report` is the report of the meshes `list`, of which there is
/// at least one: for some order of the report, its triangle counts are a
/// third of the index counts in that order, and the rest is taken from the
/// first mesh of the order.
pub open spec fn reports(list: Seq<GeomInfo>, report: GeomReport) -> bool {
    exists|order: Seq<usize>|
        {
            &&& #[trigger] is_report_order(list, order)
            &&& report.polygons@.len() == list.len()
            &&& forall|p: int|
                0 <= p < list.len() ==> #[trigger] report.polygons@[p] == list[order[p] as int].index_count
                    / 3
            &&& report.vertices == list[order[0] as int].vertex_count
            &&& report.more_vertices == (list[order[0] as int].index_count / 3 < list[order[0] as int].vertex_count)
            &&& report.submeshes == list[order[0] as int].submeshes
        }
}

/// The report of the meshes `list`, or `None` where there is no mesh.
pub fn geom_report(list: &Vec<GeomInfo>) -> (r: Option<GeomReport>)
    ensures
        list@.len() == 0 ==> r.is_none(),
        list@.len() > 0 ==> r.is_some() && reports(list@, r.unwrap()),
{
    if list.len() == 0 {
        return None;
    }
    let order = report_order(list);
    let mut polygons: Vec<u64> = Vec::new();
    let mut p: usize = 0;
    while p < order.len()
        invariant
            p <= order@.len(),
            is_report_order(list@, order@),
            polygons@.len() == p,
            forall|h: int|
                0 <= h < p ==> #[trigger] polygons@[h] == list@[order@[h] as int].index_count / 3,
        decreases order@.len() - p,
    {
        polygons.push(list[order[p]].index_count / 3);
        p += 1;
    }
    let first = list[order[0]];
    let report = GeomReport {
        polygons,
        vertices: first.vertex_count,
        more_vertices: first.index_count / 3 < first.vertex_count as u64,
        submeshes: first.submeshes,
    };
    assert(is_report_order(list@, order@));
    Some(report)
}

} // verus!
