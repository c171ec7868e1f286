//! The source registry: create-if-absent of a content source's identity
//! row with its fixed trust priority, and the per-source registration
//! entry points with their hard-wired priorities.
use vstd::prelude::*;

use crate::outside::fresh_uuid;
use crate::store::{source_names_unique, store_wf, Store, StoreV};
use crate::types::{source_absent, source_lookup, Source, SourceV};
use crate::Result;

verus! {

/// Everything the create-if-absent registration guarantees: when a row
/// with the name exists, it is returned and the store is untouched; when
/// none exists, exactly one new row with this name and priority is
/// appended and returned. Nothing else of the store moves.
pub open spec fn source_upsert_post(
    pre: StoreV,
    post: StoreV,
    name: Seq<char>,
    pri: i32,
    s: SourceV,
) -> bool {
    &&& post.works == pre.works
    &&& post.titles == pre.titles
    &&& post.genres == pre.genres
    &&& post.authors == pre.authors
    &&& post.listings == pre.listings
    &&& if source_absent(pre.sources, name) {
        &&& post.sources == pre.sources.push(s)
        &&& s.name == name
        &&& s.priority == pri
        &&& s.id.len() == 36
    } else {
        &&& post.sources == pre.sources
        &&& source_lookup(pre.sources, name, s)
    }
}

/// Looks the source up by its unique name; if absent, generates a new
/// identifier and inserts `{id, name, priority}`. Returns the existing or
/// newly created row. The priority of an existing row is never changed.
pub fn insert_source_if_not_exists(src_name: &str, pri: i32, store: &mut Store) -> (r: Result<
    Source,
>)
    requires
        store_wf(old(store)@),
    ensures
        store_wf(final(store)@),
        match r {
            Ok(s) => source_upsert_post(old(store)@, final(store)@, src_name@, pri, s@),
            Err(_) => false,
        },
{
    let key = String::from_str(src_name);
    let mut i: usize = 0;
    while i < store.sources.len()
        invariant
            i <= store.sources.len(),
            forall|j: int| 0 <= j < i ==> (#[trigger] store@.sources[j]).name != src_name@,
            key@ == src_name@,
            *store == *old(store),
            store_wf(store@),
        decreases store.sources.len() - i,
    {
        if store.sources[i].name == key {
            let s = store.sources[i].clone();
            proof {
                assert(store@.sources[i as int] == s@);
                assert(source_lookup(store@.sources, src_name@, s@));
            }
            return Ok(s);
        }
        i = i + 1;
    }
    let row = Source { id: fresh_uuid(), name: key, priority: pri };
    let s = row.clone();
    let ghost pre = store@;
    store.sources.push(row);
    proof {
        assert(store@.sources =~= pre.sources.push(s@));
        assert(source_names_unique(store@.sources)) by {
            assert(forall|j: int|
                0 <= j < pre.sources.len() ==> (#[trigger] pre.sources[j]) == store@.sources[j]);
        }
    }
    Ok(s)
}

/// Registers the manganelo source under its fixed trust priority.
pub fn get_manganelo_source(store: &mut Store) -> (r: Result<Source>)
    requires
        store_wf(old(store)@),
    ensures
        store_wf(final(store)@),
        match r {
            Ok(s) => source_upsert_post(old(store)@, final(store)@, "manganelo"@, 2, s@),
            Err(_) => false,
        },
{
    insert_source_if_not_exists("manganelo", 2, store)
}

/// Registers the readm source under its fixed trust priority.
pub fn get_readm_source(store: &mut Store) -> (r: Result<Source>)
    requires
        store_wf(old(store)@),
    ensures
        store_wf(final(store)@),
        match r {
            Ok(s) => source_upsert_post(old(store)@, final(store)@, "readm"@, 1, s@),
            Err(_) => false,
        },
{
    insert_source_if_not_exists("readm", 1, store)
}

/// Registers the mangadino source under its fixed trust priority.
pub fn get_mangadino_source(store: &mut Store) -> (r: Result<Source>)
    requires
        store_wf(old(store)@),
    ensures
        store_wf(final(store)@),
        match r {
            Ok(s) => source_upsert_post(old(store)@, final(store)@, "mangadino"@, 3, s@),
            Err(_) => false,
        },
{
    insert_source_if_not_exists("mangadino", 3, store)
}

/// Registers the studygroup source under its fixed trust priority.
pub fn get_studygroup_source(store: &mut Store) -> (r: Result<Source>)
    requires
        store_wf(old(store)@),
    ensures
        store_wf(final(store)@),
        match r {
            Ok(s) => source_upsert_post(old(store)@, final(store)@, "studygroup"@, 0, s@),
            Err(_) => false,
        },
{
    insert_source_if_not_exists("studygroup", 0, store)
}

} // verus!
