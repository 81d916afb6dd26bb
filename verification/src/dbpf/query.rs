//! Questions that the tools ask of an archive: which resources it holds,
//! whether two archives share one, and what an archive is called.

use crate::dbpf::entry_views;
use crate::dbpf::DBPFIndexEntry;
use crate::dbpf::EntryView;
use std::collections::BTreeMap;
use std::collections::HashSet;
use vstd::prelude::*;

verus! {

broadcast use {
    vstd::std_specs::hash::group_hash_axioms,
    vstd::std_specs::btree::group_btree_axioms,
};

/// The code of the parts of Create-A-Sim: clothing, hair and the like.
pub const CASP: u32 = 0x034A_EECB;

/// The code of sliders.
pub const FACE: u32 = 0x0358_B08A;

/// The code of skin tones.
pub const SKIN_TONE: u32 = 0x0354_796A;

/// The code of objects.
pub const OBJD: u32 = 0x319E_4F1D;

/// The code of XML resources, among them patterns.
pub const XML_RESOURCE: u32 = 0x0333_406C;

/// The code of name maps.
pub const NMAP: u32 = 0x0166_038C;

/// The code of fabric blends.
pub const FBLN: u32 = 0xB52F_5055;

/// The type, group and instance of a resource as one number: the type in
/// the highest 32 bits, the instance in the lowest 64.
pub open spec fn tgi_key(resource_type: u32, resource_group: u32, instance: u64) -> u128 {
    (resource_type as int * 0x1_0000_0000_0000_0000_0000_0000 + resource_group as int
        * 0x1_0000_0000_0000_0000 + instance as int) as u128
}

/// The type, group and instance of a resource as one number.
pub fn pack_tgi(resource_type: u32, resource_group: u32, instance: u64) -> (r: u128)
    ensures
        r == tgi_key(resource_type, resource_group, instance),
{
    resource_type as u128 * 0x1_0000_0000_0000_0000_0000_0000 + resource_group as u128
        * 0x1_0000_0000_0000_0000 + instance as u128
}

/// The type, group and instance that make up `key`.
pub fn unpack_tgi(key: u128) -> (r: (u32, u32, u64))
    ensures
        tgi_key(r.0, r.1, r.2) == key,
        forall|t: u32, g: u32, i: u64| key == tgi_key(t, g, i) ==> r == (t, g, i),
{
    (
        (key / 0x1_0000_0000_0000_0000_0000_0000) as u32,
        (key / 0x1_0000_0000_0000_0000 % 0x1_0000_0000) as u32,
        (key % 0x1_0000_0000_0000_0000) as u64,
    )
}

/// The key of the resource of `entry`.
pub open spec fn key_of(entry: EntryView) -> u128 {
    tgi_key(entry.resource_type, entry.resource_group, entry.instance)
}

/// Whether a resource of the type `resource_type` is custom content that
/// is looked for: a part of Create-A-Sim, a slider, a skin tone or an
/// object, and in a merged archive also an XML resource.
pub open spec fn is_content(resource_type: u32, merged: bool) -> bool {
    resource_type == CASP || resource_type == FACE || resource_type == SKIN_TONE || resource_type
        == OBJD || (merged && resource_type == XML_RESOURCE)
}

/// The keys of the custom content among `entries`.
pub open spec fn content_keys(entries: Seq<EntryView>, merged: bool) -> Set<u128> {
    Set::new(
        |k: u128|
            exists|j: int|
                0 <= j < entries.len() && is_content((#[trigger] entries[j]).resource_type, merged)
                    && k == key_of(entries[j]),
    )
}

/// The keys of the XML resources among `entries`.
pub open spec fn pattern_keys(entries: Seq<EntryView>) -> Set<u128> {
    Set::new(
        |k: u128|
            exists|j: int|
                0 <= j < entries.len() && (#[trigger] entries[j]).resource_type == XML_RESOURCE && k
                    == key_of(entries[j]),
    )
}

/// Whether there is custom content among `entries`.
pub open spec fn has_content(entries: Seq<EntryView>, merged: bool) -> bool {
    exists|j: int| 0 <= j < entries.len() && is_content((#[trigger] entries[j]).resource_type, merged)
}

/// The keys by which an archive of `entries` is compared with others: those
/// of its custom content, or, where it has none, those of its XML
/// resources.
pub open spec fn tgi_set(entries: Seq<EntryView>, merged: bool) -> Set<u128> {
    if has_content(entries, merged) {
        content_keys(entries, merged)
    } else {
        pattern_keys(entries)
    }
}

/// Whether a resource of the type `resource_type` is custom content that is
/// looked for.
pub fn type_is_content(resource_type: u32, merged: bool) -> (r: bool)
    ensures
        r == is_content(resource_type, merged),
{
    // Clothing, hair, etc.
    resource_type == CASP
    // Sliders
     || resource_type == FACE
    // Skins
     || resource_type == SKIN_TONE
    // Objects
     || resource_type == OBJD
    // Patterns, but only in the merged archive that is searched for.
    // Clothing has duplicates of them.
     || (merged && resource_type == XML_RESOURCE)
}

/// The keys by which the archive of `entries` is compared with others; see
/// [`tgi_set`].
pub fn filter_tgi_into_map(entries: &Vec<DBPFIndexEntry>, merged: bool) -> (r: HashSet<u128>)
    ensures
        r@ == tgi_set(entry_views(entries@), merged),
{
    let ghost views = entry_views(entries@);
    let mut set: HashSet<u128> = HashSet::new();
    let mut found = false;
    let mut j: usize = 0;
    assert(set@ =~= content_keys(views.take(0), merged));
    while j < entries.len()
        invariant
            j <= entries@.len(),
            views == entry_views(entries@),
            set@ == content_keys(views.take(j as int), merged),
            found == has_content(views.take(j as int), merged),
        decreases entries@.len() - j,
    {
        let entry = &entries[j];
        let ghost before = views.take(j as int);
        let ghost after = views.take(j + 1);
        assert(after[j as int] == entry@);
        assert forall|h: int| 0 <= h < j implies after[h] == before[h] by {}
        if type_is_content(entry.resource_type, merged) {
            set.insert(pack_tgi(entry.resource_type, entry.resource_group, entry.instance));
            found = true;
            assert(set@ =~= content_keys(after, merged)) by {
                assert forall|k: u128| content_keys(after, merged).contains(k) implies content_keys(
                    before,
                    merged,
                ).insert(key_of(entry@)).contains(k) by {
                    let h = choose|h: int|
                        0 <= h < after.len() && is_content(
                            (#[trigger] after[h]).resource_type,
                            merged,
                        ) && k == key_of(after[h]);
                    if h < j {
                        assert(before[h] == after[h]);
                    }
                }
                assert forall|k: u128|
                    content_keys(before, merged).insert(key_of(entry@)).contains(
                        k,
                    ) implies content_keys(after, merged).contains(k) by {
                    if k == key_of(entry@) {
                        assert(is_content(after[j as int].resource_type, merged));
                    } else {
                        let h = choose|h: int|
                            0 <= h < before.len() && is_content(
                                (#[trigger] before[h]).resource_type,
                                merged,
                            ) && k == key_of(before[h]);
                        assert(after[h] == before[h]);
                    }
                }
            }
            assert(has_content(after, merged)) by {
                assert(is_content(after[j as int].resource_type, merged));
            }
        } else {
            assert(set@ =~= content_keys(after, merged)) by {
                assert forall|k: u128| content_keys(after, merged).contains(k) implies content_keys(
                    before,
                    merged,
                ).contains(k) by {
                    let h = choose|h: int|
                        0 <= h < after.len() && is_content(
                            (#[trigger] after[h]).resource_type,
                            merged,
                        ) && k == key_of(after[h]);
                    assert(before[h] == after[h]);
                }
                assert forall|k: u128| content_keys(before, merged).contains(k) implies content_keys(
                    after,
                    merged,
                ).contains(k) by {
                    let h = choose|h: int|
                        0 <= h < before.len() && is_content(
                            (#[trigger] before[h]).resource_type,
                            merged,
                        ) && k == key_of(before[h]);
                    assert(after[h] == before[h]);
                }
            }
            assert(has_content(after, merged) == has_content(before, merged)) by {
                if has_content(after, merged) {
                    let h = choose|h: int|
                        0 <= h < after.len() && is_content(
                            (#[trigger] after[h]).resource_type,
                            merged,
                        );
                    assert(before[h] == after[h]);
                }
                if has_content(before, merged) {
                    let h = choose|h: int|
                        0 <= h < before.len() && is_content(
                            (#[trigger] before[h]).resource_type,
                            merged,
                        );
                    assert(after[h] == before[h]);
                }
            }
        }
        j += 1;
    }
    assert(views.take(j as int) =~= views);
    if found {
        return set;
    }
    // If there's nothing else of interest, now pattern XMLs are interesting.
    let mut patterns: HashSet<u128> = HashSet::new();
    let mut j: usize = 0;
    assert(patterns@ =~= pattern_keys(views.take(0)));
    while j < entries.len()
        invariant
            j <= entries@.len(),
            views == entry_views(entries@),
            patterns@ == pattern_keys(views.take(j as int)),
        decreases entries@.len() - j,
    {
        let entry = &entries[j];
        let ghost before = views.take(j as int);
        let ghost after = views.take(j + 1);
        assert(after[j as int] == entry@);
        assert forall|h: int| 0 <= h < j implies after[h] == before[h] by {}
        if entry.resource_type == XML_RESOURCE {
            patterns.insert(pack_tgi(entry.resource_type, entry.resource_group, entry.instance));
            assert(patterns@ =~= pattern_keys(after)) by {
                assert forall|k: u128| pattern_keys(after).contains(k) implies pattern_keys(
                    before,
                ).insert(key_of(entry@)).contains(k) by {
                    let h = choose|h: int|
                        0 <= h < after.len() && (#[trigger] after[h]).resource_type == XML_RESOURCE
                            && k == key_of(after[h]);
                    if h < j {
                        assert(before[h] == after[h]);
                    }
                }
                assert forall|k: u128|
                    pattern_keys(before).insert(key_of(entry@)).contains(k) implies pattern_keys(
                    after,
                ).contains(k) by {
                    if k == key_of(entry@) {
                        assert(after[j as int].resource_type == XML_RESOURCE);
                    } else {
                        let h = choose|h: int|
                            0 <= h < before.len() && (#[trigger] before[h]).resource_type
                                == XML_RESOURCE && k == key_of(before[h]);
                        assert(after[h] == before[h]);
                    }
                }
            }
        } else {
            assert(patterns@ =~= pattern_keys(after)) by {
                assert forall|k: u128| pattern_keys(after).contains(k) implies pattern_keys(
                    before,
                ).contains(k) by {
                    let h = choose|h: int|
                        0 <= h < after.len() && (#[trigger] after[h]).resource_type == XML_RESOURCE
                            && k == key_of(after[h]);
                    assert(before[h] == after[h]);
                }
                assert forall|k: u128| pattern_keys(before).contains(k) implies pattern_keys(
                    after,
                ).contains(k) by {
                    let h = choose|h: int|
                        0 <= h < before.len() && (#[trigger] before[h]).resource_type
                            == XML_RESOURCE && k == key_of(before[h]);
                    assert(after[h] == before[h]);
                }
            }
        }
        j += 1;
    }
    assert(views.take(j as int) =~= views);
    patterns
}

/// Whether entry `j` of `entries` is the resource of the given type, group
/// and instance.
pub open spec fn is_resource(
    entries: Seq<EntryView>,
    j: int,
    resource_type: u32,
    resource_group: u32,
    instance: u64,
) -> bool {
    entries[j].resource_type == resource_type && entries[j].resource_group == resource_group
        && entries[j].instance == instance
}

/// The place of the first entry with the given type, group and instance,
/// if there is one.
pub fn find_entry(
    entries: &Vec<DBPFIndexEntry>,
    resource_type: u32,
    resource_group: u32,
    instance: u64,
) -> (r: Option<usize>)
    ensures
        match r {
            Some(j) => j < entries@.len() && is_resource(
                entry_views(entries@),
                j as int,
                resource_type,
                resource_group,
                instance,
            ) && forall|h: int|
                0 <= h < j ==> !is_resource(
                    entry_views(entries@),
                    h,
                    resource_type,
                    resource_group,
                    instance,
                ),
            None => forall|h: int|
                0 <= h < entries@.len() ==> !is_resource(
                    entry_views(entries@),
                    h,
                    resource_type,
                    resource_group,
                    instance,
                ),
        },
{
    let mut j: usize = 0;
    while j < entries.len()
        invariant
            j <= entries@.len(),
            forall|h: int|
                0 <= h < j ==> !is_resource(
                    entry_views(entries@),
                    h,
                    resource_type,
                    resource_group,
                    instance,
                ),
        decreases entries@.len() - j,
    {
        let entry = &entries[j];
        if entry.resource_type == resource_type && entry.resource_group == resource_group
            && entry.instance == instance {
            return Some(j);
        }
        j += 1;
    }
    None
}

/// Whether a resource of the type `resource_type` may carry the name of its
/// archive.
pub open spec fn is_named_type(resource_type: u32) -> bool {
    resource_type == CASP || resource_type == OBJD || resource_type == NMAP || resource_type == FBLN
}

/// Whether entry `j` of `entries` gives the archive a name from `names`: its
/// type may carry one, and `names` has its instance.
pub open spec fn names_archive(entries: Seq<EntryView>, names: Map<u64, String>, j: int) -> bool {
    is_named_type(entries[j].resource_type) && names.contains_key(entries[j].instance)
}

/// The name of the archive of `entries`: the name that `name_map` gives to
/// the instance of the first entry that has one there and whose type may
/// carry the name.
pub fn find_name<'a>(entries: &Vec<DBPFIndexEntry>, name_map: &'a BTreeMap<u64, String>) -> (r:
    Option<&'a String>)
    ensures
        match r {
            Some(name) => exists|j: int|
                0 <= j < entries@.len() && #[trigger] names_archive(
                    entry_views(entries@),
                    name_map@,
                    j,
                ) && *name == name_map@[entries@[j].instance] && forall|h: int|
                    0 <= h < j ==> !names_archive(entry_views(entries@), name_map@, h),
            None => forall|h: int|
                0 <= h < entries@.len() ==> !names_archive(entry_views(entries@), name_map@, h),
        },
{
    let mut j: usize = 0;
    while j < entries.len()
        invariant
            j <= entries@.len(),
            forall|h: int| 0 <= h < j ==> !names_archive(entry_views(entries@), name_map@, h),
        decreases entries@.len() - j,
    {
        let entry = &entries[j];
        if entry.resource_type == CASP || entry.resource_type == OBJD || entry.resource_type == NMAP
            || entry.resource_type == FBLN {
            match name_map.get(&entry.instance) {
                Some(name) => {
                    assert(names_archive(entry_views(entries@), name_map@, j as int));
                    return Some(name);
                },
                None => {},
            }
        }
        j += 1;
    }
    None
}

/// Whether the archive of `entries` holds a resource that is looked for:
/// one of its keys, taken as those of an archive that is not merged, is in
/// `find`.
pub fn shares_tgi(find: &HashSet<u128>, entries: &Vec<DBPFIndexEntry>) -> (r: bool)
    ensures
        r == exists|k: u128| find@.contains(k) && tgi_set(entry_views(entries@), false).contains(k),
{
    let ghost views = entry_views(entries@);
    let hashes = filter_tgi_into_map(entries, false);
    let mut j: usize = 0;
    while j < entries.len()
        invariant
            j <= entries@.len(),
            views == entry_views(entries@),
            hashes@ == tgi_set(views, false),
            forall|h: int|
                0 <= h < j ==> !(find@.contains(key_of(#[trigger] views[h])) && hashes@.contains(
                    key_of(views[h]),
                )),
        decreases entries@.len() - j,
    {
        let entry = &entries[j];
        let key = pack_tgi(entry.resource_type, entry.resource_group, entry.instance);
        assert(key == key_of(views[j as int]));
        if hashes.contains(&key) && find.contains(&key) {
            return true;
        }
        j += 1;
    }
    proof {
        assert forall|k: u128| find@.contains(k) && tgi_set(views, false).contains(k) implies false by {
            if has_content(views, false) {
                let h = choose|h: int|
                    0 <= h < views.len() && is_content((#[trigger] views[h]).resource_type, false)
                        && k == key_of(views[h]);
                assert(find@.contains(key_of(views[h])));
            } else {
                let h = choose|h: int|
                    0 <= h < views.len() && (#[trigger] views[h]).resource_type == XML_RESOURCE && k
                        == key_of(views[h]);
                assert(find@.contains(key_of(views[h])));
            }
        }
    }
    false
}

} // verus!
