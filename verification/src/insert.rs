//! First-time insertion of a scraped work: identity matching against the
//! shared title table, main-record election by source trust priority, and
//! the writes of the work row with all its relations (titles, authors,
//! artists, genres, chapters, listing projection).
use vstd::prelude::*;

use crate::chapter::{add_extra_chaps, chapters_as_stored};
use crate::manga::{
    appended_tail, assigned_chapters, listing_genres_of, small_description_of, chapters_dense,
};
use crate::outside::{fresh_uuid, lower_of, lowercase, upper_of, uppercase};
use crate::store::{
    author_name_present, no_work_with_id, no_work_with_url, some_work_with_linked_id, store_wf,
    title_pair_present, Author, AuthorV, Listing, ListingV, Store, StoreV, TitleRow, TitleRowV,
};
use crate::types::{clone_genres, clone_strings, Manga, MangaV};

verus! {

/// The chapter identifiers of a list, in order.
pub open spec fn chapter_ids_of(cs: Seq<crate::types::ChapterV>) -> Seq<Seq<char>> {
    Seq::new(cs.len(), |k: int| cs[k].chapter_id)
}

/// Each string of the list folded to upper case.
pub open spec fn upper_all(xs: Seq<Seq<char>>) -> Seq<Seq<char>> {
    Seq::new(xs.len(), |i: int| upper_of(xs[i]))
}

/// Each string of the list folded to lower case.
pub open spec fn lower_all(xs: Seq<Seq<char>>) -> Seq<Seq<char>> {
    Seq::new(xs.len(), |i: int| lower_of(xs[i]))
}

/// `t` is the first title row whose title occurs among the fresh work's
/// titles — the single identity-match candidate the insertion uses.
pub open spec fn first_matching_title(
    titles: Seq<TitleRowV>,
    names: Seq<Seq<char>>,
    t: int,
) -> bool {
    &&& 0 <= t < titles.len()
    &&& names.contains(titles[t].title)
    &&& forall|j: int| 0 <= j < t ==> !names.contains((#[trigger] titles[j]).title)
}

/// No title row matches any of the fresh work's titles.
pub open spec fn no_matching_title(titles: Seq<TitleRowV>, names: Seq<Seq<char>>) -> bool {
    forall|j: int| 0 <= j < titles.len() ==> !names.contains((#[trigger] titles[j]).title)
}

/// `w` is the first main work row of the linked group.
pub open spec fn first_main_with_linked(works: Seq<MangaV>, linked: Seq<char>, w: int) -> bool {
    &&& 0 <= w < works.len()
    &&& works[w].is_main
    &&& works[w].linked_id == linked
    &&& forall|j: int|
        0 <= j < w ==> !((#[trigger] works[j]).is_main && works[j].linked_id == linked)
}

/// The linked group has no main row.
pub open spec fn no_main_with_linked(works: Seq<MangaV>, linked: Seq<char>) -> bool {
    forall|j: int| 0 <= j < works.len() ==> !((#[trigger] works[j]).is_main && works[j].linked_id == linked)
}

/// The election found an existing main work: `linked` is the linked group
/// of the first matching title row, and `pri` that group's main record's
/// source priority.
pub open spec fn candidate_is(
    sv: StoreV,
    names: Seq<Seq<char>>,
    pri: i32,
    linked: Seq<char>,
) -> bool {
    exists|t: int, w: int|
        first_matching_title(sv.titles, names, t) && #[trigger] first_main_with_linked(
            sv.works,
            sv.titles[t].linked_id,
            w,
        ) && linked == sv.titles[t].linked_id && pri == sv.works[w].source.priority
}

/// The election found nothing: no title matches, or the matched linked
/// group has no main row.
pub open spec fn no_candidate(sv: StoreV, names: Seq<Seq<char>>) -> bool {
    no_matching_title(sv.titles, names) || exists|t: int|
        #[trigger] first_matching_title(sv.titles, names, t) && no_main_with_linked(
            sv.works,
            sv.titles[t].linked_id,
        )
}

/// Every row of the linked group demoted to non-main; other rows keep.
pub open spec fn demote_group(works: Seq<MangaV>, linked: Seq<char>) -> Seq<MangaV> {
    Seq::new(
        works.len(),
        |i: int|
            if works[i].linked_id == linked {
                MangaV { is_main: false, ..works[i] }
            } else {
                works[i]
            },
    )
}

/// The work row as the insertion stores it: generated identifiers, listed,
/// not old, normalized authors and artists, chapters under their fresh
/// identifiers with pages rebound, and the elected main flag and linked
/// group. Title rows live in the shared title table, not on the row.
pub open spec fn inserted_row(
    m: MangaV,
    id: Seq<char>,
    pid: Seq<char>,
    chap_ids: Seq<Seq<char>>,
    now: i64,
    main: bool,
    linked: Seq<char>,
) -> MangaV {
    MangaV {
        id: id,
        linked_id: linked,
        is_main: main,
        is_listed: true,
        name: m.name,
        cover_url: m.cover_url,
        url: m.url,
        last_updated: m.last_updated,
        status: m.status,
        description: m.description,
        last_watch_time: Some(now),
        public_id: pid,
        is_old: false,
        source: m.source,
        titles: Seq::<Seq<char>>::empty(),
        authors: upper_all(m.authors),
        artists: lower_all(m.artists),
        genres: m.genres,
        chapters: appended_tail(m.chapters, 0, chap_ids, id),
    }
}

/// The title table after inserting each of the work's titles if its
/// `(title, linked_id)` pair was absent, in order of first occurrence.
pub open spec fn upsert_titles(
    titles: Seq<TitleRowV>,
    names: Seq<Seq<char>>,
    linked: Seq<char>,
) -> Seq<TitleRowV>
    decreases names.len(),
{
    if names.len() == 0 {
        titles
    } else {
        let prev = upsert_titles(titles, names.drop_last(), linked);
        if title_pair_present(prev, names.last(), linked) {
            prev
        } else {
            prev.push(TitleRowV { title: names.last(), linked_id: linked })
        }
    }
}

/// Every row appended to the author table carries one of the upserted
/// names that was absent before; every upserted name is present after.
pub open spec fn authors_upserted(
    pre: Seq<AuthorV>,
    post: Seq<AuthorV>,
    names: Seq<Seq<char>>,
) -> bool {
    &&& post.len() >= pre.len()
    &&& post.subrange(0, pre.len() as int) == pre
    &&& forall|k: int| 0 <= k < names.len() ==> author_name_present(post, #[trigger] names[k])
    &&& forall|i: int|
        pre.len() <= i < post.len() ==> names.contains((#[trigger] post[i]).name)
            && !author_name_present(pre, post[i].name)
}

/// Everything a successful first insertion guarantees: the fresh work is
/// normalized and given its generated identifiers; exactly one new work
/// row appears, elected per the trust comparison against the identity
/// match; titles are inserted if absent under the elected linked group;
/// the union of artists and authors is upserted into the author table; the
/// genre relation and the listing projection are written. The genre and
/// source tables never move.
pub open spec fn insert_post(
    pre: StoreV,
    post: StoreV,
    m: MangaV,
    m_post: MangaV,
    id: Seq<char>,
    lid: Seq<char>,
    pid: Seq<char>,
    chap_ids: Seq<Seq<char>>,
    now: i64,
) -> bool {
    &&& m_post == (MangaV {
        id: id,
        linked_id: m_post.linked_id,
        public_id: pid,
        last_watch_time: Some(now),
        authors: upper_all(m.authors),
        artists: lower_all(m.artists),
        chapters: assigned_chapters(m.chapters, chap_ids, id),
        ..m
    })
    &&& post.genres == pre.genres
    &&& post.sources == pre.sources
    &&& post.listings == pre.listings.push(
        ListingV {
            manga_id: id,
            cover_url: m.cover_url,
            name: m.name,
            genres: listing_genres_of(m.genres),
            description_small: small_description_of(m.description),
            public_id: pid,
        },
    )
    &&& post.titles == upsert_titles(pre.titles, m.titles, m_post.linked_id)
    &&& authors_upserted(pre.authors, post.authors, lower_all(m.artists) + upper_all(m.authors))
    &&& if no_candidate(pre, m.titles) {
        m_post.linked_id == lid && post.works == pre.works.push(
            inserted_row(m, id, pid, chap_ids, now, true, lid),
        )
    } else {
        exists|pri: i32, linked: Seq<char>|
            #[trigger] candidate_is(pre, m.titles, pri, linked) && (if m.source.priority == pri {
                m_post.linked_id == lid && post.works == pre.works.push(
                    inserted_row(m, id, pid, chap_ids, now, true, lid),
                )
            } else if m.source.priority > pri {
                m_post.linked_id == linked && post.works == pre.works.push(
                    inserted_row(m, id, pid, chap_ids, now, false, linked),
                )
            } else {
                m_post.linked_id == linked && post.works == demote_group(pre.works, linked).push(
                    inserted_row(m, id, pid, chap_ids, now, true, linked),
                )
            })
    }
}

fn contains_string(v: &Vec<String>, x: &String) -> (r: bool)
    ensures
        r == v.deep_view().contains(x@),
{
    let mut i: usize = 0;
    while i < v.len()
        invariant
            i <= v.len(),
            forall|j: int| 0 <= j < i ==> v.deep_view()[j] != x@,
        decreases v.len() - i,
    {
        if v[i] == *x {
            proof {
                assert(v.deep_view()[i as int] == x@);
            }
            return true;
        }
        i = i + 1;
    }
    proof {
        if v.deep_view().contains(x@) {
            let w = choose|j: int| 0 <= j < v.deep_view().len() && v.deep_view()[j] == x@;
            assert(v.deep_view()[w] != x@);
        }
    }
    false
}

fn find_title_match(titles: &Vec<TitleRow>, names: &Vec<String>) -> (r: Option<usize>)
    ensures
        match r {
            Some(t) => first_matching_title(titles.deep_view(), names.deep_view(), t as int),
            None => no_matching_title(titles.deep_view(), names.deep_view()),
        },
{
    let mut t: usize = 0;
    while t < titles.len()
        invariant
            t <= titles.len(),
            forall|j: int|
                0 <= j < t ==> !names.deep_view().contains(
                    (#[trigger] titles.deep_view()[j]).title,
                ),
        decreases titles.len() - t,
    {
        if contains_string(names, &titles[t].title) {
            proof {
                assert(names.deep_view().contains(titles.deep_view()[t as int].title));
            }
            return Some(t);
        }
        proof {
            assert(!names.deep_view().contains(titles.deep_view()[t as int].title));
        }
        t = t + 1;
    }
    None
}

fn find_first_main(works: &Vec<Manga>, linked: &String) -> (r: Option<usize>)
    ensures
        match r {
            Some(w) => first_main_with_linked(works.deep_view(), linked@, w as int),
            None => no_main_with_linked(works.deep_view(), linked@),
        },
{
    let mut w: usize = 0;
    while w < works.len()
        invariant
            w <= works.len(),
            forall|j: int|
                0 <= j < w ==> !((#[trigger] works.deep_view()[j]).is_main
                    && works.deep_view()[j].linked_id == linked@),
        decreases works.len() - w,
    {
        if works[w].is_main && works[w].linked_id == *linked {
            proof {
                assert(works.deep_view()[w as int].is_main && works.deep_view()[
                    w as int].linked_id == linked@);
            }
            return Some(w);
        }
        w = w + 1;
    }
    None
}

/// Each name folded to lower case, in order.
fn lowercase_all(v: &Vec<String>) -> (r: Vec<String>)
    ensures
        r.deep_view() == lower_all(v.deep_view()),
{
    let mut r: Vec<String> = Vec::new();
    let mut i: usize = 0;
    while i < v.len()
        invariant
            i <= v.len(),
            r.len() == i,
            forall|j: int| 0 <= j < i ==> #[trigger] r.deep_view()[j] == lower_of(v.deep_view()[j]),
        decreases v.len() - i,
    {
        let ghost pre = r.deep_view();
        r.push(lowercase(v[i].as_str()));
        proof {
            assert forall|j: int|
                0 <= j < i + 1 implies #[trigger] r.deep_view()[j] == lower_of(
                v.deep_view()[j],
            ) by {
                if j < i {
                    assert(r.deep_view()[j] == pre[j]);
                }
            }
        }
        i = i + 1;
    }
    proof {
        assert(r.deep_view() =~= lower_all(v.deep_view()));
    }
    r
}

/// Each name folded to upper case, in order.
fn uppercase_all(v: &Vec<String>) -> (r: Vec<String>)
    ensures
        r.deep_view() == upper_all(v.deep_view()),
{
    let mut r: Vec<String> = Vec::new();
    let mut i: usize = 0;
    while i < v.len()
        invariant
            i <= v.len(),
            r.len() == i,
            forall|j: int| 0 <= j < i ==> #[trigger] r.deep_view()[j] == upper_of(v.deep_view()[j]),
        decreases v.len() - i,
    {
        let ghost pre = r.deep_view();
        r.push(uppercase(v[i].as_str()));
        proof {
            assert forall|j: int|
                0 <= j < i + 1 implies #[trigger] r.deep_view()[j] == upper_of(
                v.deep_view()[j],
            ) by {
                if j < i {
                    assert(r.deep_view()[j] == pre[j]);
                }
            }
        }
        i = i + 1;
    }
    proof {
        assert(r.deep_view() =~= upper_all(v.deep_view()));
    }
    r
}

/// Demotes every row of the linked group to non-main, in place.
fn demote_group_rows(works: &mut Vec<Manga>, linked: &String)
    ensures
        final(works).deep_view() == demote_group(old(works).deep_view(), linked@),
{
    let ghost pre = works.deep_view();
    let mut i: usize = 0;
    while i < works.len()
        invariant
            i <= works.len(),
            works.len() == pre.len(),
            forall|j: int|
                0 <= j < i ==> #[trigger] works.deep_view()[j] == demote_group(pre, linked@)[j],
            forall|j: int| i <= j < pre.len() ==> #[trigger] works.deep_view()[j] == pre[j],
        decreases works.len() - i,
    {
        let ghost cur = works.deep_view();
        if works[i].linked_id == *linked {
            let mut w = works[i].clone();
            proof {
                assert(w@ == works.deep_view()[i as int]);
                assert(w@ == pre[i as int]);
            }
            w.is_main = false;
            proof {
                assert(w@ =~= (MangaV { is_main: false, ..pre[i as int] }));
            }
            works[i] = w;
            proof {
                assert(works.deep_view()[i as int] == works@[i as int]@);
            }
        }
        proof {
            assert forall|j: int|
                0 <= j < i + 1 implies #[trigger] works.deep_view()[j] == demote_group(
                pre,
                linked@,
            )[j] by {
                if j < i {
                    assert(works.deep_view()[j] == cur[j]);
                }
            }
            assert forall|j: int| i + 1 <= j < pre.len() implies #[trigger] works.deep_view()[j]
                == pre[j] by {
                assert(works.deep_view()[j] == cur[j]);
            }
        }
        i = i + 1;
    }
    proof {
        assert(works.deep_view() =~= demote_group(pre, linked@));
    }
}

fn title_pair_in(titles: &Vec<TitleRow>, title: &String, linked: &String) -> (r: bool)
    ensures
        r == title_pair_present(titles.deep_view(), title@, linked@),
{
    let mut i: usize = 0;
    while i < titles.len()
        invariant
            i <= titles.len(),
            forall|j: int|
                0 <= j < i ==> !((#[trigger] titles.deep_view()[j]).title == title@
                    && titles.deep_view()[j].linked_id == linked@),
        decreases titles.len() - i,
    {
        if titles[i].title == *title && titles[i].linked_id == *linked {
            proof {
                assert(titles.deep_view()[i as int].title == title@ && titles.deep_view()[
                    i as int].linked_id == linked@);
            }
            return true;
        }
        i = i + 1;
    }
    false
}

/// Inserts a title row for every title whose `(title, linked_id)` pair is
/// absent (insert-if-absent, guarding against duplicates across runs).
fn upsert_title_rows(titles: &mut Vec<TitleRow>, names: &Vec<String>, linked: &String)
    requires
        crate::store::title_pairs_unique(old(titles).deep_view()),
    ensures
        final(titles).deep_view() == upsert_titles(
            old(titles).deep_view(),
            names.deep_view(),
            linked@,
        ),
        crate::store::title_pairs_unique(final(titles).deep_view()),
{
    let ghost pre = titles.deep_view();
    let mut k: usize = 0;
    while k < names.len()
        invariant
            k <= names.len(),
            titles.deep_view() == upsert_titles(pre, names.deep_view().subrange(0, k as int), linked@),
            crate::store::title_pairs_unique(titles.deep_view()),
        decreases names.len() - k,
    {
        let ghost cur = titles.deep_view();
        let present = title_pair_in(titles, &names[k], linked);
        if !present {
            let ghost tpre = titles.deep_view();
            titles.push(TitleRow { title: names[k].clone(), linked_id: linked.clone() });
            proof {
                assert(titles.deep_view() =~= tpre.push(
                    TitleRowV { title: names.deep_view()[k as int], linked_id: linked@ },
                ));
                assert(crate::store::title_pairs_unique(titles.deep_view())) by {
                    assert(forall|j: int|
                        0 <= j < tpre.len() ==> (#[trigger] tpre[j]) == titles.deep_view()[j]);
                }
            }
        }
        k = k + 1;
        proof {
            assert(names.deep_view().subrange(0, k as int).drop_last() =~= names.deep_view()
                .subrange(0, k - 1));
            assert(names.deep_view().subrange(0, k as int).last() == names.deep_view()[k - 1]);
            assert(titles.deep_view() == upsert_titles(
                pre,
                names.deep_view().subrange(0, k as int),
                linked@,
            ));
        }
    }
    proof {
        assert(names.deep_view().subrange(0, names.len() as int) =~= names.deep_view());
    }
}

/// Upserts the union of artists and authors into the author table by name
/// (insert-or-ignore: a pre-existing row keeps its identifier; a new name
/// gets one generated identifier).
fn upsert_author_rows(authors: &mut Vec<Author>, artists: &Vec<String>, names: &Vec<String>)
    requires
        crate::store::author_names_unique(old(authors).deep_view()),
        artists.len() + names.len() <= usize::MAX,
    ensures
        authors_upserted(
            old(authors).deep_view(),
            final(authors).deep_view(),
            artists.deep_view() + names.deep_view(),
        ),
        crate::store::author_names_unique(final(authors).deep_view()),
{
    let ghost pre = authors.deep_view();
    let ghost all = artists.deep_view() + names.deep_view();
    let total = artists.len() + names.len();
    let mut k: usize = 0;
    while k < total
        invariant
            k <= total,
            total == artists.len() + names.len(),
            all == artists.deep_view() + names.deep_view(),
            crate::store::author_names_unique(authors.deep_view()),
            authors.deep_view().len() >= pre.len(),
            authors.deep_view().subrange(0, pre.len() as int) == pre,
            forall|j: int|
                0 <= j < k ==> author_name_present(authors.deep_view(), #[trigger] all[j]),
            forall|i: int|
                pre.len() <= i < authors.deep_view().len() ==> all.contains(
                    (#[trigger] authors.deep_view()[i]).name,
                ) && !author_name_present(pre, authors.deep_view()[i].name),
        decreases total - k,
    {
        let name: &String = if k < artists.len() {
            &artists[k]
        } else {
            &names[k - artists.len()]
        };
        proof {
            assert(name@ == all[k as int]);
        }
        let ghost cur = authors.deep_view();
        let mut present = false;
        let mut i: usize = 0;
        while i < authors.len()
            invariant
                i <= authors.len(),
                authors.deep_view() == cur,
                present == exists|j: int|
                    0 <= j < i && (#[trigger] authors.deep_view()[j]).name == name@,
            decreases authors.len() - i,
        {
            if authors[i].name == *name {
                proof {
                    assert(authors.deep_view()[i as int].name == name@);
                }
                present = true;
            }
            i = i + 1;
        }
        proof {
            assert(present == author_name_present(authors.deep_view(), name@));
        }
        if !present {
            let row = Author { id: fresh_uuid(), name: name.clone() };
            let ghost rv = row@;
            authors.push(row);
            proof {
                assert(authors.deep_view() =~= cur.push(rv));
                assert(forall|j: int|
                    0 <= j < cur.len() ==> (#[trigger] cur[j]) == authors.deep_view()[j]);
                assert(crate::store::author_names_unique(authors.deep_view()));
                assert(authors.deep_view().subrange(0, pre.len() as int) =~= cur.subrange(
                    0,
                    pre.len() as int,
                ));
                assert(!author_name_present(pre, name@)) by {
                    assert(forall|j: int|
                        0 <= j < pre.len() ==> (#[trigger] pre[j]) == cur.subrange(
                            0,
                            pre.len() as int,
                        )[j]);
                }
                assert(all.contains(name@)) by {
                    assert(all[k as int] == name@);
                }
                assert(authors.deep_view().last().name == name@);
            }
        }
        proof {
            assert(author_name_present(authors.deep_view(), name@)) by {
                if !present {
                    assert(authors.deep_view()[authors.deep_view().len() - 1].name == name@);
                }
            }
        }
        k = k + 1;
        proof {
            assert forall|j: int|
                0 <= j < k implies author_name_present(
                authors.deep_view(),
                #[trigger] all[j],
            ) by {
                if j < k - 1 {
                    let w = choose|i2: int|
                        0 <= i2 < cur.len() && (#[trigger] cur[i2]).name == all[j];
                    assert(authors.deep_view()[w].name == all[j]);
                } else {
                    assert(all[j] == name@);
                }
            }
        }
    }
}

/// A freshly inserted work's chapter list is well formed: densely numbered
/// (the adapter contract), owned by the new row, pages rebound, and the
/// generated identifiers distinct.
proof fn lemma_inserted_chapters_wf(
    m: MangaV,
    id: Seq<char>,
    pid: Seq<char>,
    chap_ids: Seq<Seq<char>>,
    now: i64,
    main: bool,
    linked: Seq<char>,
)
    requires
        chapters_dense(m.chapters),
        chap_ids.len() == m.chapters.len(),
        forall|i: int, j: int| 0 <= i < j < chap_ids.len() ==> chap_ids[i] != chap_ids[j],
    ensures
        crate::store::chapters_wf(inserted_row(m, id, pid, chap_ids, now, main, linked)),
{
    let row = inserted_row(m, id, pid, chap_ids, now, main, linked);
    let cs = row.chapters;
    assert forall|k: int| 0 <= k < cs.len() implies (#[trigger] cs[k]).sequence_number == k
        && cs[k].manga_id == row.id && crate::store::pages_wf(cs[k]) by {
        assert(cs[k] == appended_tail(m.chapters, 0, chap_ids, id)[k]);
        assert(m.chapters[k].sequence_number == k);
        assert forall|p: int| 0 <= p < cs[k].pages.len() implies (
        #[trigger] cs[k].pages[p]).chapter_id == cs[k].chapter_id by {
            assert(cs[k].pages[p] == crate::chapter::rebound_pages(
                m.chapters[k].pages,
                chap_ids[k],
            )[p]);
        }
    }
    assert forall|k: int, l: int| 0 <= k < l < cs.len() implies cs[k].chapter_id
        != cs[l].chapter_id by {
        assert(cs[k].chapter_id == chap_ids[k]);
        assert(cs[l].chapter_id == chap_ids[l]);
    }
}

/// The title upsert only appends: the old table is a prefix of the new
/// one, and every appended row sits under the given linked group.
proof fn lemma_upsert_titles_shape(
    titles0: Seq<TitleRowV>,
    names: Seq<Seq<char>>,
    linked: Seq<char>,
)
    ensures
        upsert_titles(titles0, names, linked).len() >= titles0.len(),
        upsert_titles(titles0, names, linked).subrange(0, titles0.len() as int) == titles0,
        forall|t: int|
            titles0.len() <= t < upsert_titles(titles0, names, linked).len() ==> (
            #[trigger] upsert_titles(titles0, names, linked)[t]).linked_id == linked,
    decreases names.len(),
{
    let cur = upsert_titles(titles0, names, linked);
    if names.len() == 0 {
        assert(cur.subrange(0, titles0.len() as int) =~= titles0);
    } else {
        lemma_upsert_titles_shape(titles0, names.drop_last(), linked);
        let prev = upsert_titles(titles0, names.drop_last(), linked);
        if title_pair_present(prev, names.last(), linked) {
            assert(cur == prev);
        } else {
            let row = TitleRowV { title: names.last(), linked_id: linked };
            assert(cur == prev.push(row));
            assert(cur.subrange(0, titles0.len() as int) =~= prev.subrange(
                0,
                titles0.len() as int,
            ));
            assert forall|t: int|
                titles0.len() <= t < cur.len() implies (#[trigger] cur[t]).linked_id == linked by {
                if t < prev.len() {
                    assert(cur[t] == prev[t]);
                }
            }
        }
    }
}

/// New title rows land only under the new work row's linked group, so the
/// anchoring of title rows in work rows survives an insertion.
proof fn lemma_insert_titles_anchored(
    pre: StoreV,
    post_titles: Seq<TitleRowV>,
    post_works: Seq<MangaV>,
    names: Seq<Seq<char>>,
    linked: Seq<char>,
)
    requires
        crate::store::titles_anchored(pre.titles, pre.works),
        post_titles == upsert_titles(pre.titles, names, linked),
        post_works.len() == pre.works.len() + 1,
        forall|a: int|
            0 <= a < pre.works.len() ==> (#[trigger] post_works[a]).linked_id
                == pre.works[a].linked_id,
        post_works[pre.works.len() as int].linked_id == linked,
    ensures
        crate::store::titles_anchored(post_titles, post_works),
{
    lemma_upsert_titles_shape(pre.titles, names, linked);
    assert forall|t: int|
        0 <= t < post_titles.len() implies crate::store::some_work_with_linked_id(
        post_works,
        (#[trigger] post_titles[t]).linked_id,
    ) by {
        if t < pre.titles.len() {
            assert(post_titles[t] == post_titles.subrange(0, pre.titles.len() as int)[t]);
            assert(post_titles[t] == pre.titles[t]);
            let lt = pre.titles[t].linked_id;
            let w = choose|i: int|
                0 <= i < pre.works.len() && (#[trigger] pre.works[i]).linked_id == lt;
            assert(post_works[w].linked_id == pre.titles[t].linked_id);
        } else {
            assert(post_titles[t].linked_id == linked);
            assert(post_works[pre.works.len() as int].linked_id == linked);
        }
    }
}

/// An identity match excludes the no-candidate outcome: the first matching
/// title row is unique, and its group has a main record.
pub proof fn lemma_candidate_excludes_none(sv: StoreV, names: Seq<Seq<char>>, pri: i32, linked: Seq<char>)
    requires
        candidate_is(sv, names, pri, linked),
    ensures
        !no_candidate(sv, names),
{
    let (t, w) = choose|t: int, w: int|
        first_matching_title(sv.titles, names, t) && #[trigger] first_main_with_linked(
            sv.works,
            sv.titles[t].linked_id,
            w,
        ) && linked == sv.titles[t].linked_id && pri == sv.works[w].source.priority;
    if no_matching_title(sv.titles, names) {
        assert(!names.contains(sv.titles[t].title));
    }
    if exists|t2: int|
        #[trigger] first_matching_title(sv.titles, names, t2) && no_main_with_linked(
            sv.works,
            sv.titles[t2].linked_id,
        ) {
        let t2 = choose|t2: int|
            #[trigger] first_matching_title(sv.titles, names, t2) && no_main_with_linked(
                sv.works,
                sv.titles[t2].linked_id,
            );
        if t2 < t {
            assert(!names.contains(sv.titles[t2].title));
        }
        if t < t2 {
            assert(!names.contains(sv.titles[t].title));
        }
        assert(t2 == t);
        assert(!(sv.works[w].is_main && sv.works[w].linked_id == sv.titles[t].linked_id));
    }
}

/// The push of a fresh main row under its own fresh linked group keeps the
/// work-row conjuncts of the invariant.
proof fn lemma_insert_push_wf(
    pre: StoreV,
    m: MangaV,
    id: Seq<char>,
    pid: Seq<char>,
    chap_ids: Seq<Seq<char>>,
    now: i64,
    lid: Seq<char>,
)
    requires
        store_wf(pre),
        chapters_dense(m.chapters),
        no_work_with_url(pre.works, m.url),
        no_work_with_id(pre.works, id),
        !some_work_with_linked_id(pre.works, lid),
        chap_ids.len() == m.chapters.len(),
        forall|i: int, j: int| 0 <= i < j < chap_ids.len() ==> chap_ids[i] != chap_ids[j],
    ensures
        crate::store::urls_unique(pre.works.push(inserted_row(m, id, pid, chap_ids, now, true, lid))),
        crate::store::work_ids_unique(
            pre.works.push(inserted_row(m, id, pid, chap_ids, now, true, lid)),
        ),
        crate::store::at_most_one_main(
            pre.works.push(inserted_row(m, id, pid, chap_ids, now, true, lid)),
        ),
        crate::store::group_has_main(
            pre.works.push(inserted_row(m, id, pid, chap_ids, now, true, lid)),
        ),
        forall|a: int|
            0 <= a < pre.works.push(inserted_row(m, id, pid, chap_ids, now, true, lid)).len()
                ==> crate::store::chapters_wf(
                #[trigger] pre.works.push(inserted_row(m, id, pid, chap_ids, now, true, lid))[a],
            ),
{
    let row = inserted_row(m, id, pid, chap_ids, now, true, lid);
    let works = pre.works.push(row);
    assert(crate::store::urls_unique(works));
    assert(crate::store::work_ids_unique(works));
    assert(crate::store::at_most_one_main(works)) by {
        assert forall|a: int, b: int|
            0 <= a < b < works.len() && works[a].is_main && works[b].is_main implies works[
        a].linked_id != works[b].linked_id by {
            if b == works.len() - 1 {
                assert(works[a] == pre.works[a]);
                assert(pre.works[a].linked_id != lid);
            }
        }
    }
    assert(crate::store::group_has_main(works)) by {
        assert forall|a: int| 0 <= a < works.len() implies exists|b: int|
            0 <= b < works.len() && (#[trigger] works[b]).is_main && works[b].linked_id == (
            #[trigger] works[a]).linked_id by {
            if a < pre.works.len() {
                let b = choose|b: int|
                    0 <= b < pre.works.len() && (#[trigger] pre.works[b]).is_main && pre.works[
                        b].linked_id == pre.works[a].linked_id;
                assert(works[b].is_main && works[b].linked_id == works[a].linked_id);
            } else {
                assert(works[works.len() - 1].is_main && works[works.len() - 1].linked_id == lid);
            }
        }
    }
    lemma_inserted_chapters_wf(m, id, pid, chap_ids, now, true, lid);
    assert forall|a: int| 0 <= a < works.len() implies crate::store::chapters_wf(
        #[trigger] works[a],
    ) by {
        if a < pre.works.len() {
            assert(works[a] == pre.works[a]);
        }
    }
}

/// A less trusted source adopts the candidate's group and stays non-main:
/// the group's existing main record is untouched.
#[verifier::rlimit(100)]
proof fn lemma_insert_adopt_wf(
    pre: StoreV,
    m: MangaV,
    id: Seq<char>,
    pid: Seq<char>,
    chap_ids: Seq<Seq<char>>,
    now: i64,
    pri: i32,
    linked: Seq<char>,
)
    requires
        store_wf(pre),
        chapters_dense(m.chapters),
        no_work_with_url(pre.works, m.url),
        no_work_with_id(pre.works, id),
        chap_ids.len() == m.chapters.len(),
        forall|i: int, j: int| 0 <= i < j < chap_ids.len() ==> chap_ids[i] != chap_ids[j],
        candidate_is(pre, m.titles, pri, linked),
    ensures
        crate::store::urls_unique(
            pre.works.push(inserted_row(m, id, pid, chap_ids, now, false, linked)),
        ),
        crate::store::work_ids_unique(
            pre.works.push(inserted_row(m, id, pid, chap_ids, now, false, linked)),
        ),
        crate::store::at_most_one_main(
            pre.works.push(inserted_row(m, id, pid, chap_ids, now, false, linked)),
        ),
        crate::store::group_has_main(
            pre.works.push(inserted_row(m, id, pid, chap_ids, now, false, linked)),
        ),
        forall|a: int|
            0 <= a < pre.works.push(inserted_row(m, id, pid, chap_ids, now, false, linked)).len()
                ==> crate::store::chapters_wf(
                #[trigger] pre.works.push(inserted_row(m, id, pid, chap_ids, now, false, linked))[a],
            ),
{
    let row = inserted_row(m, id, pid, chap_ids, now, false, linked);
    let works = pre.works.push(row);
    assert(crate::store::urls_unique(works));
    assert(crate::store::work_ids_unique(works));
    assert(crate::store::at_most_one_main(works));
    let (t, w) = choose|t: int, w: int|
        first_matching_title(pre.titles, m.titles, t) && #[trigger] first_main_with_linked(
            pre.works,
            pre.titles[t].linked_id,
            w,
        ) && linked == pre.titles[t].linked_id && pri == pre.works[w].source.priority;
    assert(crate::store::group_has_main(works)) by {
        assert forall|a: int| 0 <= a < works.len() implies exists|b: int|
            0 <= b < works.len() && (#[trigger] works[b]).is_main && works[b].linked_id == (
            #[trigger] works[a]).linked_id by {
            if a < pre.works.len() {
                let b = choose|b: int|
                    0 <= b < pre.works.len() && (#[trigger] pre.works[b]).is_main && pre.works[
                        b].linked_id == pre.works[a].linked_id;
                assert(works[b].is_main && works[b].linked_id == works[a].linked_id);
            } else {
                assert(works[w].is_main && works[w].linked_id == works[a].linked_id);
            }
        }
    }
    lemma_inserted_chapters_wf(m, id, pid, chap_ids, now, false, linked);
    assert forall|a: int| 0 <= a < works.len() implies crate::store::chapters_wf(
        #[trigger] works[a],
    ) by {
        if a < pre.works.len() {
            assert(works[a] == pre.works[a]);
        }
    }
}

/// A more trusted source adopts the candidate's group, which is demoted
/// whole before the new row is promoted: afterwards the group's single
/// main record is the new row.
#[verifier::rlimit(100)]
proof fn lemma_insert_promote_wf(
    pre: StoreV,
    m: MangaV,
    id: Seq<char>,
    pid: Seq<char>,
    chap_ids: Seq<Seq<char>>,
    now: i64,
    linked: Seq<char>,
)
    requires
        store_wf(pre),
        chapters_dense(m.chapters),
        no_work_with_url(pre.works, m.url),
        no_work_with_id(pre.works, id),
        chap_ids.len() == m.chapters.len(),
        forall|i: int, j: int| 0 <= i < j < chap_ids.len() ==> chap_ids[i] != chap_ids[j],
    ensures
        crate::store::urls_unique(
            demote_group(pre.works, linked).push(
                inserted_row(m, id, pid, chap_ids, now, true, linked),
            ),
        ),
        crate::store::work_ids_unique(
            demote_group(pre.works, linked).push(
                inserted_row(m, id, pid, chap_ids, now, true, linked),
            ),
        ),
        crate::store::at_most_one_main(
            demote_group(pre.works, linked).push(
                inserted_row(m, id, pid, chap_ids, now, true, linked),
            ),
        ),
        crate::store::group_has_main(
            demote_group(pre.works, linked).push(
                inserted_row(m, id, pid, chap_ids, now, true, linked),
            ),
        ),
        forall|a: int|
            0 <= a < demote_group(pre.works, linked).push(
                inserted_row(m, id, pid, chap_ids, now, true, linked),
            ).len() ==> crate::store::chapters_wf(
                #[trigger] demote_group(pre.works, linked).push(
                    inserted_row(m, id, pid, chap_ids, now, true, linked),
                )[a],
            ),
{
    let row = inserted_row(m, id, pid, chap_ids, now, true, linked);
    let demoted = demote_group(pre.works, linked);
    let works = demoted.push(row);
    assert(forall|a: int|
        0 <= a < pre.works.len() ==> (#[trigger] demoted[a]).url == pre.works[a].url && demoted[
            a].id == pre.works[a].id && demoted[a].linked_id == pre.works[a].linked_id && demoted[
            a].chapters == pre.works[a].chapters);
    assert(crate::store::urls_unique(works));
    assert(crate::store::work_ids_unique(works));
    assert(crate::store::at_most_one_main(works)) by {
        assert forall|a: int, b: int|
            0 <= a < b < works.len() && works[a].is_main && works[b].is_main implies works[
        a].linked_id != works[b].linked_id by {
            if b < demoted.len() {
                assert(works[a] == demoted[a] && works[b] == demoted[b]);
                assert(demoted[a].is_main ==> pre.works[a].is_main);
                assert(demoted[b].is_main ==> pre.works[b].is_main);
            } else {
                assert(works[a] == demoted[a]);
                assert(demoted[a].is_main ==> pre.works[a].is_main && pre.works[a].linked_id
                    != linked);
            }
        }
    }
    assert(crate::store::group_has_main(works)) by {
        assert forall|a: int| 0 <= a < works.len() implies exists|b: int|
            0 <= b < works.len() && (#[trigger] works[b]).is_main && works[b].linked_id == (
            #[trigger] works[a]).linked_id by {
            if a < pre.works.len() && works[a].linked_id != linked {
                let b = choose|b: int|
                    0 <= b < pre.works.len() && (#[trigger] pre.works[b]).is_main && pre.works[
                        b].linked_id == pre.works[a].linked_id;
                assert(demoted[b].is_main == pre.works[b].is_main);
                assert(works[b].is_main && works[b].linked_id == works[a].linked_id);
            } else {
                let b = works.len() - 1;
                assert(works[b].is_main && works[b].linked_id == linked);
            }
        }
    }
    lemma_inserted_chapters_wf(m, id, pid, chap_ids, now, true, linked);
    assert forall|a: int| 0 <= a < works.len() implies crate::store::chapters_wf(
        #[trigger] works[a],
    ) by {
        if a < pre.works.len() {
            assert(works[a].chapters == pre.works[a].chapters && works[a].id == pre.works[a].id);
            assert(crate::store::chapters_wf(pre.works[a]));
            assert(works[a] == (MangaV { is_main: works[a].is_main, ..pre.works[a] }));
        }
    }
}

/// Normalizes the fresh work (artists lower-cased, authors upper-cased)
/// and assigns the generated identifiers: the work's own, the provisional
/// linked group, the public identifier, the watch time, and one identifier
/// per chapter. Returns the prepared chapter list.
fn normalize_and_assign(
    mng: &mut Manga,
    id: &String,
    lid: &String,
    pid: String,
    chap_ids: &Vec<String>,
    now: i64,
) -> (tail: Vec<crate::types::Chapter>)
    requires
        chap_ids.len() == old(mng).chapters.len(),
    ensures
        final(mng)@ == (MangaV {
            id: id@,
            linked_id: lid@,
            public_id: pid@,
            last_watch_time: Some(now),
            authors: upper_all(old(mng)@.authors),
            artists: lower_all(old(mng)@.artists),
            chapters: assigned_chapters(old(mng)@.chapters, chap_ids.deep_view(), id@),
            ..old(mng)@
        }),
        tail.deep_view() == final(mng)@.chapters,
        final(mng).artists.len() == old(mng).artists.len(),
        final(mng).authors.len() == old(mng).authors.len(),
{
    let ghost m0 = mng@;
    mng.artists = lowercase_all(&mng.artists);
    mng.authors = uppercase_all(&mng.authors);
    mng.last_watch_time = Some(now);
    mng.public_id = pid;
    mng.linked_id = lid.clone();
    mng.id = id.clone();
    let tail = crate::manga::assign_tail(mng, chap_ids, 0, id);
    proof {
        assert(mng@.chapters =~= assigned_chapters(m0.chapters, chap_ids.deep_view(), id@));
        assert(mng@ =~= (MangaV {
            id: id@,
            linked_id: lid@,
            public_id: pid@,
            last_watch_time: Some(now),
            authors: upper_all(m0.authors),
            artists: lower_all(m0.artists),
            chapters: assigned_chapters(m0.chapters, chap_ids.deep_view(), id@),
            ..m0
        }));
        assert(tail.deep_view() =~= mng@.chapters);
        assert(mng.artists.deep_view().len() == lower_all(m0.artists).len());
        assert(mng.authors.deep_view().len() == upper_all(m0.authors).len());
    }
    tail
}

/// Builds the work row as it is stored: the prepared chapters under their
/// own identifiers with pages rebound, the elected main flag and linked
/// group, listed and not old; title rows live in the shared title table.
fn build_row(
    mng: &Manga,
    id: &String,
    main: bool,
    tail: &Vec<crate::types::Chapter>,
    now: i64,
) -> (row: Manga)
    ensures
        row@ == (MangaV {
            id: id@,
            linked_id: mng@.linked_id,
            is_main: main,
            is_listed: true,
            last_watch_time: Some(now),
            is_old: false,
            titles: Seq::<Seq<char>>::empty(),
            chapters: chapters_as_stored(tail.deep_view()),
            ..mng@
        }),
{
    let mut row_chapters: Vec<crate::types::Chapter> = Vec::new();
    add_extra_chaps(&mut row_chapters, tail);
    let row = Manga {
        id: id.clone(),
        linked_id: mng.linked_id.clone(),
        is_main: main,
        is_listed: true,
        name: mng.name.clone(),
        cover_url: mng.cover_url.clone(),
        url: mng.url.clone(),
        last_updated: mng.last_updated,
        status: mng.status.clone(),
        description: mng.description.clone(),
        last_watch_time: Some(now),
        public_id: mng.public_id.clone(),
        is_old: false,
        source: mng.source.clone(),
        titles: Vec::new(),
        authors: clone_strings(&mng.authors),
        artists: clone_strings(&mng.artists),
        genres: clone_genres(&mng.genres),
        chapters: row_chapters,
    };
    proof {
        assert(row@.titles =~= Seq::<Seq<char>>::empty());
        assert(row@ =~= (MangaV {
            id: id@,
            linked_id: mng@.linked_id,
            is_main: main,
            is_listed: true,
            last_watch_time: Some(now),
            is_old: false,
            titles: Seq::<Seq<char>>::empty(),
            chapters: chapters_as_stored(tail.deep_view()),
            ..mng@
        }));
    }
    row
}

/// Writes the work's relations: the title rows absent from the elected
/// linked group, the author table upsert for artists and authors, and the
/// listing projection, inserted last.
fn write_relations(store: &mut Store, mng: &Manga, id: String)
    requires
        crate::store::title_pairs_unique(old(store)@.titles),
        crate::store::author_names_unique(old(store)@.authors),
        mng.artists.len() + mng.authors.len() <= usize::MAX,
    ensures
        final(store)@.titles == upsert_titles(old(store)@.titles, mng@.titles, mng@.linked_id),
        crate::store::title_pairs_unique(final(store)@.titles),
        authors_upserted(
            old(store)@.authors,
            final(store)@.authors,
            mng@.artists + mng@.authors,
        ),
        crate::store::author_names_unique(final(store)@.authors),
        final(store)@.listings == old(store)@.listings.push(
            ListingV {
                manga_id: id@,
                cover_url: mng@.cover_url,
                name: mng@.name,
                genres: listing_genres_of(mng@.genres),
                description_small: small_description_of(mng@.description),
                public_id: mng@.public_id,
            },
        ),
        final(store)@.works == old(store)@.works,
        final(store)@.genres == old(store)@.genres,
        final(store)@.sources == old(store)@.sources,
{
    upsert_title_rows(&mut store.titles, &mng.titles, &mng.linked_id);
    upsert_author_rows(&mut store.authors, &mng.artists, &mng.authors);
    let genres_all = crate::manga::listing_genres(&mng.genres);
    let desc_small = crate::manga::small_description(&mng.description);
    let listing = Listing {
        manga_id: id,
        cover_url: mng.cover_url.clone(),
        name: mng.name.clone(),
        genres: genres_all,
        description_small: desc_small,
        public_id: mng.public_id.clone(),
    };
    let ghost lv = listing@;
    let ghost lpre = store@.listings;
    store.listings.push(listing);
    proof {
        assert(store@.listings =~= lpre.push(lv));
    }
}

/// Writes a new logical work under its generated identifiers: normalizes
/// author and artist casing, assigns the chapters their identifiers,
/// resolves the identity match, elects the main record (the promotion of a
/// more trusted source demotes the whole adopted group and promotes the
/// new row as one atomic step), and writes the row with its titles,
/// author links, genres, chapters and listing projection.
#[verifier::rlimit(100)]
fn insert_manga_with_ids(
    mng: &mut Manga,
    store: &mut Store,
    id: String,
    lid: String,
    pid: String,
    chap_ids: Vec<String>,
    now: i64,
)
    requires
        store_wf(old(store)@),
        chapters_dense(old(mng)@.chapters),
        no_work_with_url(old(store)@.works, old(mng)@.url),
        no_work_with_id(old(store)@.works, id@),
        !some_work_with_linked_id(old(store)@.works, lid@),
        chap_ids.len() == old(mng)@.chapters.len(),
        forall|i: int, j: int|
            0 <= i < j < chap_ids.len() ==> chap_ids.deep_view()[i] != chap_ids.deep_view()[j],
        old(mng).artists.len() + old(mng).authors.len() <= usize::MAX,
    ensures
        store_wf(final(store)@),
        insert_post(
            old(store)@,
            final(store)@,
            old(mng)@,
            final(mng)@,
            id@,
            lid@,
            pid@,
            chap_ids.deep_view(),
            now,
        ),
{
    let ghost m0 = mng@;
    let ghost pre = store@;
    let ghost cids = chap_ids.deep_view();

    let tail = normalize_and_assign(mng, &id, &lid, pid, &chap_ids, now);

    // Identity match and main-record election.
    let ghost mut ecase: int = 0;
    let ghost mut cand_pri: i32 = 0;
    let ghost mut cand_linked: Seq<char> = Seq::<char>::empty();
    let mut main = false;
    match find_title_match(&store.titles, &mng.titles) {
        None => {
            main = true;
            proof {
                assert(mng@.titles =~= m0.titles);
                assert(no_candidate(pre, m0.titles));
            }
        },
        Some(t) => {
            let linked_c = store.titles[t].linked_id.clone();
            proof {
                assert(linked_c@ == pre.titles[t as int].linked_id);
                assert(mng@.titles =~= m0.titles);
                assert(first_matching_title(pre.titles, m0.titles, t as int));
            }
            match find_first_main(&store.works, &linked_c) {
                None => {
                    main = true;
                    proof {
                        assert(no_candidate(pre, m0.titles));
                    }
                },
                Some(w) => {
                    let pri_c = store.works[w].source.priority;
                    proof {
                        assert(first_main_with_linked(pre.works, linked_c@, w as int));
                        assert(pri_c == pre.works[w as int].source.priority);
                        assert(candidate_is(pre, m0.titles, pri_c, linked_c@));
                        cand_pri = pri_c;
                        cand_linked = linked_c@;
                    }
                    if mng.source.priority == pri_c {
                        // Same trust: a different work that shares a title.
                        main = true;
                        proof {
                            ecase = 1;
                        }
                    } else if mng.source.priority > pri_c {
                        // Less trusted: adopt the group, stay non-main.
                        mng.linked_id = linked_c;
                        main = false;
                        proof {
                            ecase = 2;
                        }
                    } else {
                        // More trusted: adopt the group, demote it whole,
                        // promote the new row (one atomic step).
                        mng.linked_id = linked_c.clone();
                        demote_group_rows(&mut store.works, &linked_c);
                        main = true;
                        proof {
                            ecase = 3;
                        }
                    }
                },
            }
        },
    }
    proof {
        assert(mng@ =~= (MangaV {
            id: id@,
            linked_id: mng@.linked_id,
            public_id: pid@,
            last_watch_time: Some(now),
            authors: upper_all(m0.authors),
            artists: lower_all(m0.artists),
            chapters: assigned_chapters(m0.chapters, cids, id@),
            ..m0
        }));
        if ecase != 0 {
            assert(candidate_is(pre, m0.titles, cand_pri, cand_linked));
            lemma_candidate_excludes_none(pre, m0.titles, cand_pri, cand_linked);
        }
    }

    let row = build_row(mng, &id, main, &tail, now);
    proof {
        assert(row@.chapters =~= appended_tail(m0.chapters, 0, cids, id@));
        assert(row@ =~= inserted_row(m0, id@, pid@, cids, now, main, mng@.linked_id));
    }
    let ghost works_mid = store@.works;
    store.works.push(row);
    proof {
        assert(store@.works =~= works_mid.push(
            inserted_row(m0, id@, pid@, cids, now, main, mng@.linked_id),
        ));
        assert(store@.titles == pre.titles);
        assert(store@.authors == pre.authors);
        assert(store@.listings == pre.listings);
        assert(store@.genres == pre.genres);
        assert(store@.sources == pre.sources);
    }

    write_relations(store, mng, id);

    proof {
        assert(mng@.titles =~= m0.titles);
        assert(mng@.artists + mng@.authors =~= lower_all(m0.artists) + upper_all(m0.authors));
        assert(store@.titles == upsert_titles(pre.titles, m0.titles, mng@.linked_id));
        assert(authors_upserted(
            pre.authors,
            store@.authors,
            lower_all(m0.artists) + upper_all(m0.authors),
        ));
        assert(store@.listings =~= pre.listings.push(
            ListingV {
                manga_id: id@,
                cover_url: m0.cover_url,
                name: m0.name,
                genres: listing_genres_of(m0.genres),
                description_small: small_description_of(m0.description),
                public_id: pid@,
            },
        ));
        if ecase == 0 {
            assert(no_candidate(pre, m0.titles));
            assert(mng@.linked_id == lid@);
            assert(works_mid == pre.works);
            lemma_insert_push_wf(pre, m0, id@, pid@, cids, now, lid@);
        } else {
            assert(candidate_is(pre, m0.titles, cand_pri, cand_linked));
            if ecase == 1 {
                assert(m0.source.priority == cand_pri);
                assert(mng@.linked_id == lid@);
                assert(works_mid == pre.works);
                lemma_insert_push_wf(pre, m0, id@, pid@, cids, now, lid@);
            } else if ecase == 2 {
                assert(m0.source.priority > cand_pri);
                assert(mng@.linked_id == cand_linked);
                assert(works_mid == pre.works);
                lemma_insert_adopt_wf(pre, m0, id@, pid@, cids, now, cand_pri, cand_linked);
            } else {
                assert(m0.source.priority < cand_pri);
                assert(mng@.linked_id == cand_linked);
                assert(works_mid == demote_group(pre.works, cand_linked));
                lemma_insert_promote_wf(pre, m0, id@, pid@, cids, now, cand_linked);
            }
        }
        assert(insert_post(pre, store@, m0, mng@, id@, lid@, pid@, cids, now));
        assert(crate::store::titles_anchored(store@.titles, store@.works)) by {
            assert(store@.works.len() == pre.works.len() + 1);
            assert forall|a: int|
                0 <= a < pre.works.len() implies (#[trigger] store@.works[a]).linked_id
                == pre.works[a].linked_id by {
                assert(store@.works[a] == works_mid[a]);
                if ecase == 3 {
                    assert(works_mid[a] == demote_group(pre.works, cand_linked)[a]);
                }
            }
            assert(store@.works[pre.works.len() as int].linked_id == mng@.linked_id);
            lemma_insert_titles_anchored(
                pre,
                store@.titles,
                store@.works,
                m0.titles,
                mng@.linked_id,
            );
        }
        assert(store_wf(store@));
    }
}

/// Inserts a newly scraped logical work whose canonical URL is not yet
/// stored: generates the work, linked-group and public identifiers and one
/// identifier per chapter, matches the work against existing main records
/// by shared title, elects the main record by source trust, and writes the
/// row with all its relations. A URL already present is rejected; a
/// generated identifier that collides is reported before anything is
/// stored.
pub fn insert_manga(mng: &mut Manga, store: &mut Store, now: i64) -> (r: crate::Result<()>)
    requires
        store_wf(old(store)@),
        chapters_dense(old(mng)@.chapters),
        old(mng).artists.len() + old(mng).authors.len() <= usize::MAX,
    ensures
        store_wf(final(store)@),
        !no_work_with_url(old(store)@.works, old(mng)@.url) ==> r is Err,
        match r {
            Ok(_) => exists|lid: Seq<char>|
                !some_work_with_linked_id(old(store)@.works, lid) && #[trigger] insert_post(
                    old(store)@,
                    final(store)@,
                    old(mng)@,
                    final(mng)@,
                    final(mng)@.id,
                    lid,
                    final(mng)@.public_id,
                    chapter_ids_of(final(mng)@.chapters),
                    now,
                ),
            Err(e) => {
                &&& final(store)@ == old(store)@
                &&& final(mng)@ == old(mng)@
                &&& (!no_work_with_url(old(store)@.works, old(mng)@.url) <==> e.err_type
                    is SQLError)
                &&& (no_work_with_url(old(store)@.works, old(mng)@.url) ==> e.err_type
                    is OtherError)
            },
        },
{
    if let Some(_existing) = store.find_work_by_url(&mng.url) {
        return Err(
            crate::MSError {
                message: String::from_str("a work with this url is already stored"),
                err_type: crate::MSErrorType::SQLError,
            },
        );
    }
    let id = fresh_uuid();
    let lid = fresh_uuid();
    let pid = fresh_uuid();
    let mut chap_ids: Vec<String> = Vec::new();
    let n = mng.chapters.len();
    let mut t: usize = 0;
    while t < n
        invariant
            t <= n,
            chap_ids.len() == t,
            *mng == *old(mng),
            *store == *old(store),
        decreases n - t,
    {
        chap_ids.push(fresh_uuid());
        t = t + 1;
    }
    let id_taken = store.find_work_by_id(&id);
    let lid_taken = store.linked_id_in_use(&lid);
    let ids_ok = crate::manga::strings_distinct(&chap_ids);
    if id_taken.is_some() || lid_taken || !ids_ok {
        return Err(
            crate::MSError {
                message: String::from_str("generated identifiers collided"),
                err_type: crate::MSErrorType::OtherError,
            },
        );
    }
    let ghost lidv = lid@;
    insert_manga_with_ids(mng, store, id, lid, pid, chap_ids, now);
    proof {
        assert(chap_ids.deep_view() =~= chapter_ids_of(mng@.chapters));
        assert(insert_post(
            old(store)@,
            store@,
            old(mng)@,
            mng@,
            mng@.id,
            lidv,
            mng@.public_id,
            chapter_ids_of(mng@.chapters),
            now,
        ));
    }
    Ok(())
}

} // verus!
