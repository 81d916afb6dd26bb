//! The name map: a chunk that gives names to instances.
//!
//! A name map is stored as the version 1, a count, and that many records of
//! a 64-bit instance and a length-prefixed name. All numbers are 32-bit
//! little-endian but the instance.

use crate::dbpf::DBPFIndexEntry;
use crate::dbpf::EntryView;
use crate::dbpf::FileCtx;
use crate::dbpf::ReadSeek;
use crate::error::Error;
use crate::util::le_u64;
use crate::util::length_string_at;
use crate::util::read_u32_le;
use crate::util::read_u64_le;
use crate::util::word_at;
use crate::util::LengthString;
use std::collections::BTreeMap;
use vstd::prelude::*;
use vstd::std_specs::cmp::OrdSpec;
use vstd::std_specs::iter::IteratorSpec;
use vstd::slice::slice_to_vec;
use vstd::utf8::decode_utf8;
use vstd::utf8::valid_utf8;

verus! {

/// The version of the name maps that are understood.
pub const NMAP_VERSION: u32 = 1;

/// The code of the resource type of name maps.
pub const NMAP_TYPE: u32 = 0x0166_038C;

/// Where record `i` of the records in `s` starts, or `None` where `s` ends
/// before the record before it does.
pub open spec fn record_start(s: Seq<u8>, i: nat) -> Option<int>
    decreases i,
{
    if i == 0 {
        Some(0)
    } else {
        match record_start(s, (i - 1) as nat) {
            None => None,
            Some(p) => if s.len() - p < 8 {
                None
            } else {
                match length_string_at(s.skip(p + 8)) {
                    None => None,
                    Some((_, used)) => Some(p + 8 + used),
                }
            },
        }
    }
}

/// Record `i` of the records in `s`: an instance and its name.
pub open spec fn record(s: Seq<u8>, i: nat) -> (u64, Seq<u8>)
    recommends
        record_start(s, i + 1).is_some(),
{
    let p = record_start(s, i).unwrap();
    (le_u64(s.skip(p)), length_string_at(s.skip(p + 8)).unwrap().0)
}

/// The records of the name map stored in `data`, in the order of the file.
///
/// `TruncatedInput` where `data` ends before the name map does, `BadVersion`
/// where the version is not 1. What follows the last record is not looked
/// at.
pub open spec fn parsed_nmap(data: Seq<u8>) -> Result<Seq<(u64, Seq<u8>)>, Error> {
    if data.len() < 4 {
        Err(Error::TruncatedInput)
    } else if word_at(data, 0) != NMAP_VERSION {
        Err(Error::BadVersion)
    } else if data.len() < 8 {
        Err(Error::TruncatedInput)
    } else if record_start(data.skip(8), word_at(data, 1) as nat).is_none() {
        Err(Error::TruncatedInput)
    } else {
        Ok(Seq::new(word_at(data, 1) as nat, |i: int| record(data.skip(8), i as nat)))
    }
}

/// The mapping that `records` give: each instance has the name of the last
/// record that names it.
pub open spec fn records_map(records: Seq<(u64, Seq<u8>)>) -> Map<u64, Seq<u8>>
    decreases records.len(),
{
    if records.len() == 0 {
        Map::empty()
    } else {
        records_map(records.drop_last()).insert(records.last().0, records.last().1)
    }
}

/// Once the records run out of bytes, they do so for every larger count.
pub proof fn lemma_record_start_none(s: Seq<u8>, i: nat, n: nat)
    requires
        i <= n,
        record_start(s, i).is_none(),
    ensures
        record_start(s, n).is_none(),
    decreases n,
{
    if i < n {
        lemma_record_start_none(s, i, (n - 1) as nat);
    }
}

/// Reads the records of the name map stored in `data`; see [`parsed_nmap`].
pub fn read_records(data: &[u8]) -> (r: Result<Vec<(u64, LengthString)>, Error>)
    ensures
        match parsed_nmap(data@) {
            Ok(records) => r.is_ok() && records_view(r.unwrap()@) == records,
            Err(e) => r.is_err() && r.unwrap_err() == e,
        },
{
    let total = data.len();
    if total < 4 {
        return Err(Error::TruncatedInput);
    }
    if read_u32_le(data, 0) != NMAP_VERSION {
        return Err(Error::BadVersion);
    }
    if total < 8 {
        return Err(Error::TruncatedInput);
    }
    let count: u32 = read_u32_le(data, 4);
    let ghost s = data@.skip(8);
    let mut records: Vec<(u64, LengthString)> = Vec::new();
    let mut pos: usize = 8;
    let mut i: u32 = 0;
    while i < count
        invariant
            i <= count,
            total == data@.len(),
            s == data@.skip(8),
            8 <= pos <= total,
            word_at(data@, 0) == NMAP_VERSION,
            count == word_at(data@, 1),
            record_start(s, i as nat) == Some(pos - 8),
            records@.len() == i,
            forall|h: int|
                0 <= h < i ==> (#[trigger] records@[h]).0 == record(s, h as nat).0 && records@[h].1.inner@
                    == record(s, h as nat).1,
        decreases count - i,
    {
        proof {
            assert(s.skip(pos - 8) =~= data@.skip(pos as int));
        }
        if total - pos < 8 {
            proof {
                lemma_record_start_none(s, (i + 1) as nat, count as nat);
            }
            return Err(Error::TruncatedInput);
        }
        let instance: u64 = read_u64_le(data, pos);
        proof {
            let rest = data@.skip(pos as int);
            assert(rest.subrange(0, 8) =~= data@.subrange(pos as int, pos + 8));
            assert(rest.subrange(0, 8).skip(4) =~= rest.skip(4).subrange(0, 4));
            assert(rest.subrange(0, 8).subrange(0, 4) =~= rest.subrange(0, 4));
            assert(le_u64(rest) == le_u64(rest.subrange(0, 8)));
        }
        assert(s.skip(pos - 8 + 8) =~= data@.skip(pos + 8));
        let mut at: usize = pos + 8;
        let name = match LengthString::read(data, &mut at) {
            Ok(name) => name,
            Err(e) => {
                proof {
                    lemma_record_start_none(s, (i + 1) as nat, count as nat);
                }
                return Err(Error::TruncatedInput);
            },
        };
        records.push((instance, name));
        pos = at;
        i += 1;
    }
    assert(records_view(records@) =~= Seq::new(count as nat, |h: int| record(s, h as nat)));
    Ok(records)
}

/// The records in `v` with the bytes of their names.
pub open spec fn records_view(v: Seq<(u64, LengthString)>) -> Seq<(u64, Seq<u8>)> {
    Seq::new(v.len(), |i: int| (v[i].0, v[i].1.inner@))
}

/// A mapping with the bytes of its names.
pub open spec fn names_bytes(m: Map<u64, LengthString>) -> Map<u64, Seq<u8>> {
    Map::new(|k: u64| m.contains_key(k), |k: u64| m[k].inner@)
}

/// A mapping with the characters of its names.
pub open spec fn names_chars(m: Map<u64, String>) -> Map<u64, Seq<char>> {
    Map::new(|k: u64| m.contains_key(k), |k: u64| m[k]@)
}

/// A name map: the names of instances, as the bytes that the file holds.
#[derive(Debug, Clone)]
pub struct NMAP {
    pub map: BTreeMap<u64, LengthString>,
}

impl View for NMAP {
    type V = Map<u64, Seq<u8>>;

    open spec fn view(&self) -> Map<u64, Seq<u8>> {
        names_bytes(self.map@)
    }
}

impl NMAP {
    /// Reads the name map stored in `data`. Where an instance is named more
    /// than once, the last name stands.
    pub fn read(data: &[u8]) -> (r: Result<NMAP, Error>)
        ensures
            match parsed_nmap(data@) {
                Ok(records) => r.is_ok() && r.unwrap()@ == records_map(records),
                Err(e) => r.is_err() && r.unwrap_err() == e,
            },
    {
        let records = read_records(data)?;
        let ghost all = records_view(records@);
        let mut map: BTreeMap<u64, LengthString> = BTreeMap::new();
        assert(names_bytes(map@) =~= records_map(all.take(0)));
        let mut i: usize = 0;
        while i < records.len()
            invariant
                i <= records@.len(),
                all == records_view(records@),
                names_bytes(map@) == records_map(all.take(i as int)),
            decreases records@.len() - i,
        {
            let instance: u64 = records[i].0;
            let name = LengthString { inner: slice_to_vec(records[i].1.inner.as_slice()) };
            proof {
                assert(all.take(i + 1).drop_last() =~= all.take(i as int));
                assert(all[i as int] == (instance, name.inner@));
            }
            let ghost old_map = map@;
            let ghost bytes = name.inner@;
            map.insert(instance, name);
            assert(names_bytes(map@) =~= names_bytes(old_map).insert(instance, bytes));
            i += 1;
        }
        assert(all.take(i as int) =~= all);
        Ok(NMAP { map })
    }
}

/// What `String::from_utf8_lossy` makes of `bytes`: the text that they
/// encode, with a replacement character for each part that is not UTF-8.
pub uninterp spec fn utf8_lossy(bytes: Seq<u8>) -> Seq<char>;

/// `String::from_utf8_lossy`, as an owned string: the text that `bytes`
/// encode, which is their decoding where they are valid UTF-8.
#[verifier::external_body]
fn from_utf8_lossy(bytes: &[u8]) -> (s: String)
    ensures
        s@ == utf8_lossy(bytes@),
        valid_utf8(bytes@) ==> s@ == decode_utf8(bytes@),
{
    String::from_utf8_lossy(bytes).into_owned()
}

/// A mapping of names with each name decoded to text.
pub open spec fn lossy_names(m: Map<u64, Seq<u8>>) -> Map<u64, Seq<char>> {
    Map::new(|k: u64| m.contains_key(k), |k: u64| utf8_lossy(m[k]))
}

/// The names that the name map in the chunk of `entry` gives, under a
/// context with the file `source` and the brand `ctx_brand`.
///
/// `WrongResourceType` where the entry is not a name map; else the error of
/// reading the chunk; else the error of parsing it.
pub open spec fn entry_names(entry: EntryView, source: Seq<u8>, ctx_brand: Option<u64>) -> Result<
    Map<u64, Seq<char>>,
    Error,
> {
    if entry.resource_type != NMAP_TYPE {
        Err(Error::WrongResourceType)
    } else {
        match entry.chunk.content(source, ctx_brand) {
            Err(e) => Err(e),
            Ok(bytes) => match parsed_nmap(bytes) {
                Err(e) => Err(e),
                Ok(records) => Ok(lossy_names(records_map(records))),
            },
        }
    }
}

/// Adds the names of the name map in the chunk of `entry` to `name_map`. A
/// name that is already there is replaced. On an error `name_map` is left
/// as it was.
pub fn gather_names_into<Ctx: FileCtx>(
    ctx: &Ctx,
    entry: &DBPFIndexEntry,
    name_map: &mut BTreeMap<u64, String>,
) -> (r: Result<(), Error>)
    ensures
        match entry_names(entry@, ctx.source(), ctx.brand()) {
            Ok(names) => r.is_ok() && names_chars(final(name_map)@) == names_chars(
                old(name_map)@,
            ).union_prefer_right(names),
            Err(e) => r == Err::<(), Error>(e) && final(name_map)@ == old(name_map)@,
        },
{
    if entry.resource_type != NMAP_TYPE {
        return Err(Error::WrongResourceType);
    }
    let mut reader = entry.chunk.get_reader(ctx)?;
    let bytes = reader.read_to_end();
    assert(bytes@ =~= reader.stream());
    let records = read_records(bytes.as_slice())?;
    let ghost all = records_view(records@);
    let ghost before = names_chars(old(name_map)@);
    assert(names_chars(name_map@) =~= before.union_prefer_right(
        lossy_names(records_map(all.take(0))),
    ));
    let mut i: usize = 0;
    while i < records.len()
        invariant
            i <= records@.len(),
            all == records_view(records@),
            names_chars(name_map@) == before.union_prefer_right(
                lossy_names(records_map(all.take(i as int))),
            ),
        decreases records@.len() - i,
    {
        let instance: u64 = records[i].0;
        let name = from_utf8_lossy(records[i].1.inner.as_slice());
        proof {
            assert(all.take(i + 1).drop_last() =~= all.take(i as int));
            assert(all[i as int] == (instance, records@[i as int].1.inner@));
        }
        let ghost old_map = name_map@;
        let ghost text = name@;
        name_map.insert(instance, name);
        proof {
            let done = records_map(all.take(i as int));
            assert(names_chars(name_map@) =~= names_chars(old_map).insert(instance, text));
            assert(lossy_names(done.insert(instance, records@[i as int].1.inner@)) =~= lossy_names(
                done,
            ).insert(instance, text));
            assert(before.union_prefer_right(lossy_names(done).insert(instance, text))
                =~= before.union_prefer_right(lossy_names(done)).insert(instance, text));
        }
        i += 1;
    }
    assert(all.take(i as int) =~= all);
    Ok(())
}

/// The names that the name maps among `entries` give, under a context with
/// the file `source` and the brand `ctx_brand`.
///
/// The name maps are taken in the order of the entries, and a later name of
/// an instance replaces an earlier one. The error of the first name map that
/// cannot be read or parsed is the error of all.
pub open spec fn gathered(entries: Seq<EntryView>, source: Seq<u8>, ctx_brand: Option<u64>)
    -> Result<Map<u64, Seq<char>>, Error>
    decreases entries.len(),
{
    if entries.len() == 0 {
        Ok(Map::empty())
    } else {
        match gathered(entries.drop_last(), source, ctx_brand) {
            Err(e) => Err(e),
            Ok(front) => if entries.last().resource_type != NMAP_TYPE {
                Ok(front)
            } else {
                match entry_names(entries.last(), source, ctx_brand) {
                    Err(e) => Err(e),
                    Ok(names) => Ok(front.union_prefer_right(names)),
                }
            },
        }
    }
}

/// An error among the first `j` entries is the error of all of them.
pub proof fn lemma_gathered_error(
    entries: Seq<EntryView>,
    j: int,
    source: Seq<u8>,
    ctx_brand: Option<u64>,
)
    requires
        0 <= j <= entries.len(),
        gathered(entries.take(j), source, ctx_brand).is_err(),
    ensures
        gathered(entries, source, ctx_brand) == gathered(entries.take(j), source, ctx_brand),
    decreases entries.len() - j,
{
    if j == entries.len() {
        assert(entries.take(j) =~= entries);
    } else {
        assert(entries.take(j + 1).drop_last() =~= entries.take(j));
        lemma_gathered_error(entries, j + 1, source, ctx_brand);
    }
}

/// The names of all name maps among `entries`; see [`gathered`].
pub fn gather_names_of<Ctx: FileCtx>(entries: &Vec<DBPFIndexEntry>, ctx: &Ctx) -> (r: Result<
    BTreeMap<u64, String>,
    Error,
>)
    ensures
        match gathered(crate::dbpf::entry_views(entries@), ctx.source(), ctx.brand()) {
            Ok(names) => r.is_ok() && names_chars(r.unwrap()@) == names,
            Err(e) => r.is_err() && r.unwrap_err() == e,
        },
{
    let ghost views = crate::dbpf::entry_views(entries@);
    let mut map: BTreeMap<u64, String> = BTreeMap::new();
    assert(names_chars(map@) =~= Map::empty());
    let mut j: usize = 0;
    while j < entries.len()
        invariant
            j <= entries@.len(),
            views == crate::dbpf::entry_views(entries@),
            gathered(views.take(j as int), ctx.source(), ctx.brand()) == Ok::<
                Map<u64, Seq<char>>,
                Error,
            >(names_chars(map@)),
        decreases entries@.len() - j,
    {
        proof {
            assert(views.take(j + 1).drop_last() =~= views.take(j as int));
            assert(views.take(j + 1).last() == entries@[j as int]@);
        }
        if entries[j].resource_type == NMAP_TYPE {
            match gather_names_into(ctx, &entries[j], &mut map) {
                Ok(()) => {},
                Err(e) => {
                    proof {
                        lemma_gathered_error(views, j + 1, ctx.source(), ctx.brand());
                    }
                    return Err(e);
                },
            }
        }
        j += 1;
    }
    assert(views.take(j as int) =~= views);
    Ok(map)
}

/// The stored form of `records`: each instance, then its name behind the
/// length of the name.
pub open spec fn records_bytes(records: Seq<(u64, Seq<u8>)>) -> Seq<u8>
    decreases records.len(),
{
    if records.len() == 0 {
        Seq::empty()
    } else {
        records_bytes(records.drop_last()) + crate::util::u64_le(records.last().0)
            + crate::util::length_string_bytes(records.last().1)
    }
}

/// Whether `records` lists the mapping `names` by instance: each instance
/// of the mapping once, with its name, the smaller instance first.
pub open spec fn lists_by_instance(records: Seq<(u64, Seq<u8>)>, names: Map<u64, Seq<u8>>) -> bool {
    &&& records.len() == names.dom().len()
    &&& forall|i: int|
        0 <= i < records.len() ==> names.contains_key((#[trigger] records[i]).0) && names[records[i].0]
            == records[i].1
    &&& forall|i: int, j: int|
        0 <= i < j < records.len() ==> (#[trigger] records[i]).0 < (#[trigger] records[j]).0
}

/// Keys that a map lists in increasing order grow from place to place.
pub proof fn lemma_increasing_keys(keys: Seq<u64>)
    requires
        vstd::std_specs::btree::increasing_seq(keys),
    ensures
        forall|i: int, j: int| 0 <= i < j < keys.len() ==> #[trigger] keys[i] < #[trigger] keys[j],
{
    broadcast use vstd::std_specs::btree::group_btree_axioms;

    vstd::std_specs::btree::axiom_increasing_seq_meaning(keys);
    assert forall|i: int, j: int| 0 <= i < j < keys.len() implies #[trigger] keys[i]
        < #[trigger] keys[j] by {
        assert(keys[i].cmp_spec(&keys[j]) is Less);
    }
}

impl NMAP {
    /// Appends the stored form of the name map: the version, the number of
    /// names, and the names ordered by instance.
    ///
    /// Fails with `TooLarge`, leaving `out` alone, where there are more
    /// than `u32::MAX` names or a name is longer than `u32::MAX` bytes.
    pub fn write(&self, out: &mut Vec<u8>) -> (r: Result<(), Error>)
        ensures
            match r {
                Ok(()) => exists|records: Seq<(u64, Seq<u8>)>|
                    #[trigger] lists_by_instance(records, self@) && records.len() <= u32::MAX
                        && final(out)@ == old(out)@ + crate::util::u32_le(NMAP_VERSION)
                        + crate::util::u32_le(records.len() as u32) + records_bytes(records),
                Err(e) => e == Error::TooLarge && final(out)@ == old(out)@,
            },
            r.is_err() <==> (self@.dom().len() > u32::MAX || exists|k: u64|
                self@.contains_key(k) && self@[k].len() > u32::MAX),
    {
        broadcast use vstd::std_specs::btree::group_btree_axioms;

        let count = self.map.len();
        assert(self@.dom() =~= self.map@.dom());
        if count > u32::MAX as usize {
            return Err(Error::TooLarge);
        }
        let mut buffer: Vec<u8> = Vec::new();
        crate::util::write_u32_le(&mut buffer, NMAP_VERSION);
        crate::util::write_u32_le(&mut buffer, count as u32);
        let ghost head = buffer@;
        let ghost mut records: Seq<(u64, Seq<u8>)> = Seq::empty();
        assert(buffer@ =~= head + records_bytes(records));
        let ghost listing = vstd::std_specs::btree::spec_btree_map_iter(&self.map).remaining();
        for pair in it: self.map.iter()
            invariant
                count == self.map@.dom().len(),
                self@.dom() == self.map@.dom(),
                it.seq() == listing,
                listing == vstd::std_specs::btree::spec_btree_map_iter(&self.map).remaining(),
                vstd::std_specs::btree::increasing_seq(
                    listing.map_values(|kv: (&u64, &LengthString)| *kv.0),
                ),
                records.len() == it.index(),
                forall|i: int|
                    0 <= i < records.len() ==> (#[trigger] records[i]) == (
                        *listing[i].0,
                        listing[i].1.inner@,
                    ) && records[i].1.len() <= u32::MAX,
                buffer@ == head + records_bytes(records),
        {
            let (instance, name) = pair;
            crate::util::write_u64_le(&mut buffer, *instance);
            match name.write(&mut buffer) {
                Ok(()) => {},
                Err(e) => {
                    assert(self.map@.contains_key(*instance) && self.map@[*instance] == *name);
                    assert(self@.contains_key(*instance) && self@[*instance].len() > u32::MAX);
                    return Err(Error::TooLarge);
                },
            }
            proof {
                let next = records.push((*instance, name.inner@));
                assert(next.drop_last() =~= records);
                assert(buffer@ =~= head + records_bytes(next));
                records = next;
            }
        }
        proof {
            let keys = listing.map_values(|kv: (&u64, &LengthString)| *kv.0);
            lemma_increasing_keys(keys);
            assert forall|i: int, j: int| 0 <= i < j < records.len() implies (#[trigger] records[i]).0
                < (#[trigger] records[j]).0 by {
                assert(keys[i] < keys[j]);
            }
            assert forall|i: int| 0 <= i < records.len() implies self@.contains_key(
                (#[trigger] records[i]).0,
            ) && self@[records[i].0] == records[i].1 by {
                assert(self.map@.contains_key(*listing[i].0));
            }
            assert(lists_by_instance(records, self@));
            assert forall|k: u64| self@.contains_key(k) implies self@[k].len() <= u32::MAX by {
                assert(self.map@.contains_key(k));
                assert(listing.contains((&k, &self.map@[k])));
                let i = choose|i: int| 0 <= i < listing.len() && listing[i] == (&k, &self.map@[k]);
                assert(records[i].1 == self@[k]);
            }
        }
        out.extend_from_slice(buffer.as_slice());
        Ok(())
    }
}

/// The number that starts a sequence of bytes does not depend on what
/// follows its eight bytes.
proof fn lemma_le_u64_front(x: u64, rest: Seq<u8>)
    ensures
        le_u64(crate::util::u64_le(x) + rest) == x,
{
    let s = crate::util::u64_le(x) + rest;
    crate::util::lemma_le_u64_of_u64_le(x);
    let lo = crate::util::u32_le((x % 0x1_0000_0000) as u32);
    let hi = crate::util::u32_le((x / 0x1_0000_0000) as u32);
    assert(crate::util::u64_le(x) == lo + hi);
    assert(s[0] == lo[0] && s[1] == lo[1] && s[2] == lo[2] && s[3] == lo[3]);
    assert(s.skip(4)[0] == hi[0] && s.skip(4)[1] == hi[1] && s.skip(4)[2] == hi[2] && s.skip(
        4,
    )[3] == hi[3]);
    crate::util::lemma_le_u32_of_u32_le((x % 0x1_0000_0000) as u32);
    crate::util::lemma_le_u32_of_u32_le((x / 0x1_0000_0000) as u32);
    assert(crate::util::le_u32(s) == crate::util::le_u32(lo));
    assert(crate::util::le_u32(s.skip(4)) == crate::util::le_u32(hi));
}

/// A length-prefixed byte string that was written is read back as it was,
/// whatever follows it.
pub proof fn lemma_length_string_round_trip(inner: Seq<u8>, rest: Seq<u8>)
    requires
        inner.len() <= u32::MAX,
    ensures
        length_string_at(crate::util::length_string_bytes(inner) + rest) == Some(
            (inner, 4 + inner.len() as int),
        ),
{
    let prefix = crate::util::u32_le(inner.len() as u32);
    let s = crate::util::length_string_bytes(inner) + rest;
    crate::util::lemma_le_u32_of_u32_le(inner.len() as u32);
    assert(s[0] == prefix[0] && s[1] == prefix[1] && s[2] == prefix[2] && s[3] == prefix[3]);
    assert(crate::util::le_u32(s) == crate::util::le_u32(prefix));
    assert(s.subrange(4, 4 + inner.len() as int) =~= inner);
}

/// A record that stands at `p` of `s` is read there as it was written.
proof fn lemma_record_at(s: Seq<u8>, p: int, key: u64, name: Seq<u8>, after: Seq<u8>)
    requires
        0 <= p <= s.len(),
        name.len() <= u32::MAX,
        s.skip(p) == crate::util::u64_le(key) + (crate::util::length_string_bytes(name) + after),
    ensures
        s.len() - p >= 8,
        le_u64(s.skip(p)) == key,
        length_string_at(s.skip(p + 8)) == Some((name, 4 + name.len() as int)),
{
    crate::util::lemma_le_u64_of_u64_le(key);
    lemma_le_u64_front(key, crate::util::length_string_bytes(name) + after);
    assert(s.skip(p).len() >= 8);
    assert(s.skip(p + 8) =~= s.skip(p).skip(8));
    assert(s.skip(p).skip(8) =~= crate::util::length_string_bytes(name) + after);
    lemma_length_string_round_trip(name, after);
}

/// The bytes of the first `i` records and of the one behind them.
proof fn lemma_records_split(records: Seq<(u64, Seq<u8>)>, rest: Seq<u8>, j: nat)
    requires
        j < records.len(),
    ensures
        ({
            let s = records_bytes(records) + rest;
            let done = records_bytes(records.take(j as int));
            let next = records_bytes(records.take(j + 1 as int));
            &&& done.len() <= next.len() <= records_bytes(records).len()
            &&& next.len() == done.len() + 8 + 4 + records[j as int].1.len()
            &&& s.skip(done.len() as int) == crate::util::u64_le(records[j as int].0) + (
            crate::util::length_string_bytes(records[j as int].1) + s.skip(next.len() as int))
        }),
{
    let s = records_bytes(records) + rest;
    let done = records_bytes(records.take(j as int));
    let next = records_bytes(records.take(j + 1 as int));
    let key = records[j as int].0;
    let name = records[j as int].1;
    lemma_records_tail(records, rest, j + 1);
    assert(records.take(j + 1 as int).drop_last() =~= records.take(j as int));
    crate::util::lemma_le_u64_of_u64_le(key);
    let one = crate::util::u64_le(key) + crate::util::length_string_bytes(name);
    assert(next =~= done + one);
    assert(s.take(next.len() as int) == next);
    assert(s =~= next + s.skip(next.len() as int));
    assert(s.skip(done.len() as int) =~= crate::util::u64_le(key) + (
    crate::util::length_string_bytes(name) + s.skip(next.len() as int)));
}

/// The records before record `i` are read back as they were written.
proof fn lemma_records_front(records: Seq<(u64, Seq<u8>)>, rest: Seq<u8>, i: nat)
    requires
        i <= records.len(),
        forall|h: int| 0 <= h < records.len() ==> (#[trigger] records[h]).1.len() <= u32::MAX,
    ensures
        record_start(records_bytes(records) + rest, i) == Some(
            records_bytes(records.take(i as int)).len() as int,
        ),
        forall|h: int|
            0 <= h < i ==> #[trigger] record(records_bytes(records) + rest, h as nat) == records[h],
    decreases i,
{
    let s = records_bytes(records) + rest;
    if i == 0 {
        assert(records.take(0) =~= Seq::<(u64, Seq<u8>)>::empty());
    } else {
        let j = (i - 1) as nat;
        lemma_records_front(records, rest, j);
        lemma_records_split(records, rest, j);
        let p = records_bytes(records.take(j as int)).len() as int;
        let key = records[j as int].0;
        let name = records[j as int].1;
        let after = s.skip(records_bytes(records.take(i as int)).len() as int);
        lemma_record_at(s, p, key, name, after);
        assert(record_start(s, j) == Some(p));
        assert(record(s, j) == (key, name));
        assert(record(s, j) == records[j as int]);
    }
}

/// The bytes of all records start with the bytes of the first `i`.
proof fn lemma_records_tail(records: Seq<(u64, Seq<u8>)>, rest: Seq<u8>, i: nat)
    requires
        i <= records.len(),
    ensures
        records_bytes(records.take(i as int)).len() <= records_bytes(records).len(),
        (records_bytes(records) + rest).take(records_bytes(records.take(i as int)).len() as int)
            == records_bytes(records.take(i as int)),
    decreases records.len() - i,
{
    if i == records.len() {
        assert(records.take(i as int) =~= records);
        assert((records_bytes(records) + rest).take(records_bytes(records).len() as int)
            =~= records_bytes(records));
    } else {
        lemma_records_tail(records, rest, i + 1);
        assert(records.take(i + 1 as int).drop_last() =~= records.take(i as int));
        let next = records_bytes(records.take(i + 1 as int));
        let done = records_bytes(records.take(i as int));
        assert((records_bytes(records) + rest).take(done.len() as int) =~= next.take(
            done.len() as int,
        ));
        assert(next.take(done.len() as int) =~= done);
    }
}

/// A name map that was written is read back as it was, whatever follows
/// it: the same records in the same order.
pub proof fn lemma_nmap_round_trip(records: Seq<(u64, Seq<u8>)>, rest: Seq<u8>)
    requires
        records.len() <= u32::MAX,
        forall|h: int| 0 <= h < records.len() ==> (#[trigger] records[h]).1.len() <= u32::MAX,
    ensures
        parsed_nmap(
            crate::util::u32_le(NMAP_VERSION) + crate::util::u32_le(records.len() as u32)
                + records_bytes(records) + rest,
        ) == Ok::<Seq<(u64, Seq<u8>)>, Error>(records),
{
    let head = crate::util::u32_le(NMAP_VERSION) + crate::util::u32_le(records.len() as u32);
    let data = head + records_bytes(records) + rest;
    crate::util::lemma_le_u32_of_u32_le(NMAP_VERSION);
    crate::util::lemma_le_u32_of_u32_le(records.len() as u32);
    assert(data.subrange(0, 4) =~= crate::util::u32_le(NMAP_VERSION));
    assert(data.subrange(4, 8) =~= crate::util::u32_le(records.len() as u32));
    assert(data.skip(8) =~= records_bytes(records) + rest);
    lemma_records_front(records, rest, records.len());
    assert(Seq::new(records.len(), |i: int| record(data.skip(8), i as nat)) =~= records);
}

} // verus!
