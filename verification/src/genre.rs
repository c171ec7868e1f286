//! The genre registry: bulk upsert-or-ignore of a set of genre names, then
//! a full reload of the name-to-identity cache. Pre-existing rows keep
//! their identifier; each new name gets one generated identifier.
use vstd::prelude::*;

use crate::outside::fresh_uuid;
use crate::store::{genre_names_unique, store_wf, Store};
use crate::types::{clone_genres, genre_absent, Genre, GenreV};
use crate::Result;

verus! {

/// The genre table contains every requested name.
pub open spec fn names_all_present(genres: Seq<GenreV>, names: Seq<Seq<char>>) -> bool {
    forall|k: int| 0 <= k < names.len() ==> !genre_absent(genres, #[trigger] names[k])
}

/// Every row beyond the old length carries a requested name that was
/// absent before the upsert: nothing but the requested new names was
/// inserted.
pub open spec fn appended_only_requested(
    pre: Seq<GenreV>,
    post: Seq<GenreV>,
    names: Seq<Seq<char>>,
) -> bool {
    forall|i: int|
        pre.len() <= i < post.len() ==> exists|k: int|
            0 <= k < names.len() && (#[trigger] post[i]).name == names[k] && genre_absent(
                pre,
                names[k],
            )
}

/// Everything the genre upsert guarantees: rows are only appended, never
/// touched; every requested name is present afterwards; every appended row
/// carries a requested name that was absent before.
pub open spec fn genre_upsert_post(
    pre: Seq<GenreV>,
    post: Seq<GenreV>,
    names: Seq<Seq<char>>,
) -> bool {
    &&& post.len() >= pre.len()
    &&& post.subrange(0, pre.len() as int) == pre
    &&& names_all_present(post, names)
    &&& appended_only_requested(pre, post, names)
}

fn genre_name_in_table(genres: &Vec<Genre>, name: &String) -> (r: bool)
    ensures
        r == !genre_absent(genres.deep_view(), name@),
{
    let mut i: usize = 0;
    while i < genres.len()
        invariant
            i <= genres.len(),
            forall|j: int| 0 <= j < i ==> (#[trigger] genres.deep_view()[j]).name != name@,
        decreases genres.len() - i,
    {
        if genres[i].name == *name {
            proof {
                assert(genres.deep_view()[i as int].name == name@);
            }
            return true;
        }
        i = i + 1;
    }
    false
}

/// Upserts every name of the set into the genre table (insert-or-ignore:
/// a pre-existing row keeps its identifier, a new name gets one generated
/// identifier), then reloads the complete genre cache into `out` — later
/// stages depend on the full table being available, not just the newly
/// inserted subset.
pub fn insert_genre(set: &Vec<String>, store: &mut Store, out: &mut Vec<Genre>) -> (r: Result<()>)
    requires
        store_wf(old(store)@),
    ensures
        r is Ok,
        store_wf(final(store)@),
        genre_upsert_post(old(store)@.genres, final(store)@.genres, set.deep_view()),
        final(out).deep_view() == final(store)@.genres,
        final(store)@.works == old(store)@.works,
        final(store)@.titles == old(store)@.titles,
        final(store)@.sources == old(store)@.sources,
        final(store)@.authors == old(store)@.authors,
        final(store)@.listings == old(store)@.listings,
{
    let ghost pre = store@.genres;
    let mut k: usize = 0;
    while k < set.len()
        invariant
            k <= set.len(),
            store_wf(store@),
            store@.genres.len() >= pre.len(),
            store@.genres.subrange(0, pre.len() as int) == pre,
            forall|j: int|
                0 <= j < k ==> !genre_absent(store@.genres, #[trigger] set.deep_view()[j]),
            appended_only_requested(pre, store@.genres, set.deep_view()),
            store@.works == old(store)@.works,
            store@.titles == old(store)@.titles,
            store@.sources == old(store)@.sources,
            store@.authors == old(store)@.authors,
            store@.listings == old(store)@.listings,
        decreases set.len() - k,
    {
        let name = &set[k];
        let ghost gpre = store@.genres;
        if !genre_name_in_table(&store.genres, name) {
            let row = Genre { id: fresh_uuid(), name: name.clone() };
            proof {
                assert(row@.name == set.deep_view()[k as int]);
                assert(genre_absent(gpre, row@.name));
            }
            store.genres.push(row);
            proof {
                assert(store@.genres =~= gpre.push(row@));
                assert(forall|i: int|
                    0 <= i < gpre.len() ==> (#[trigger] gpre[i]) == store@.genres[i]);
                assert(store@.genres.subrange(0, pre.len() as int) =~= gpre.subrange(
                    0,
                    pre.len() as int,
                ));
                assert(genre_names_unique(store@.genres));
                assert(genre_absent(pre, set.deep_view()[k as int])) by {
                    assert(forall|i: int|
                        0 <= i < pre.len() ==> (#[trigger] pre[i]) == gpre.subrange(
                            0,
                            pre.len() as int,
                        )[i]);
                }
                assert forall|j: int|
                    0 <= j <= k implies !genre_absent(
                    store@.genres,
                    #[trigger] set.deep_view()[j],
                ) by {
                    if j < k {
                        let nm = set.deep_view()[j];
                        assert(exists|i: int| 0 <= i < gpre.len() && (#[trigger] gpre[i]).name == nm);
                        let wi = choose|i: int| 0 <= i < gpre.len() && (#[trigger] gpre[i]).name == nm;
                        assert(store@.genres[wi].name == nm);
                    } else {
                        assert(store@.genres[store@.genres.len() - 1].name == set.deep_view()[
                            k as int]);
                    }
                }
                assert(appended_only_requested(pre, store@.genres, set.deep_view())) by {
                    assert forall|i: int|
                        pre.len() <= i < store@.genres.len() implies exists|j: int|
                            0 <= j < set.deep_view().len() && (#[trigger] store@.genres[i]).name
                                == set.deep_view()[j] && genre_absent(
                                pre,
                                set.deep_view()[j],
                            ) by {
                        if i < gpre.len() {
                            assert(store@.genres[i] == gpre[i]);
                        } else {
                            assert(store@.genres[i].name == set.deep_view()[k as int]
                                && genre_absent(pre, set.deep_view()[k as int]));
                        }
                    }
                }
            }
        } else {
            proof {
                assert(!genre_absent(store@.genres, set.deep_view()[k as int]));
            }
        }
        k = k + 1;
    }
    proof {
        assert(genre_upsert_post(pre, store@.genres, set.deep_view()));
    }
    let reloaded = clone_genres(&store.genres);
    proof {
        assert(reloaded.deep_view() =~= store@.genres);
    }
    *out = reloaded;
    Ok(())
}

} // verus!
