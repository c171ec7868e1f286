//! The engine's laws, each proved from the contracts the operations state:
//! the single-main invariant, dense chapter numbering, idempotent
//! re-synchronization, the insert/fetch round trip, and the two directions
//! of main-record election.
use vstd::prelude::*;

use crate::chapter::{chapter_meta_changed, chapter_synced, pages_changed, rebound_pages};
use crate::fetch::{resolve_genre, resolved_genres, titles_of};
use crate::insert::{
    candidate_is, demote_group, first_main_with_linked, first_matching_title, insert_post,
    inserted_row, no_candidate, upsert_titles,
};
use crate::manga::{
    appended_count, genre_sets_match, listing_changed, metadata_changed, sync_applied, synced_row,
    SyncReport,
};
use crate::store::{
    no_work_with_url, store_wf, title_pair_present, StoreV, TitleRowV,
};
use crate::types::{ChapterV, GenreV, MangaV};

verus! {

/// Law: within any well-formed store, every work's linked group has
/// exactly one main record — one exists, and any two main records of the
/// group are the same row. Every mutating operation of the engine ensures
/// `store_wf`, so this holds after any sequence of insertions and
/// elections.
pub proof fn lemma_exactly_one_main(sv: StoreV, i: int)
    requires
        store_wf(sv),
        0 <= i < sv.works.len(),
    ensures
        exists|j: int|
            0 <= j < sv.works.len() && (#[trigger] sv.works[j]).is_main && sv.works[j].linked_id
                == sv.works[i].linked_id,
        forall|j: int, k: int|
            0 <= j < sv.works.len() && 0 <= k < sv.works.len() && (#[trigger] sv.works[j]).is_main
                && (#[trigger] sv.works[k]).is_main && sv.works[j].linked_id
                == sv.works[i].linked_id && sv.works[k].linked_id == sv.works[i].linked_id ==> j
                == k,
{
    let b = choose|j: int|
        0 <= j < sv.works.len() && (#[trigger] sv.works[j]).is_main && sv.works[j].linked_id
            == sv.works[i].linked_id;
    assert(sv.works[b].is_main && sv.works[b].linked_id == sv.works[i].linked_id);
}

/// Law: in any well-formed store — so after any synchronization — every
/// work's chapter `sequence_number`s are exactly `0..n-1`, no gaps, no
/// duplicates.
pub proof fn lemma_chapter_numbers_dense(sv: StoreV, i: int)
    requires
        store_wf(sv),
        0 <= i < sv.works.len(),
    ensures
        forall|k: int|
            0 <= k < sv.works[i].chapters.len() ==> (#[trigger] sv.works[i].chapters[k]).sequence_number == k,
{
}

/// The fresh scrape is identical to the stored work on every compared
/// field: metadata, genre set, chapter count, and every chapter's metadata
/// and page URLs.
pub open spec fn scrape_identical(s: MangaV, m: MangaV) -> bool {
    &&& !metadata_changed(s, m)
    &&& genre_sets_match(s.genres, m.genres)
    &&& s.chapters.len() == m.chapters.len()
    &&& forall|k: int|
        0 <= k < s.chapters.len() ==> !chapter_meta_changed(#[trigger] s.chapters[k], m.chapters[k])
    &&& forall|k: int|
        0 <= k < s.chapters.len() ==> !pages_changed(
            (#[trigger] s.chapters[k]).pages,
            m.chapters[k].pages,
        )
}

/// Law (idempotence): synchronizing a work against an identical fresh
/// scrape performs no metadata, listing, genre, chapter or page mutation —
/// the report is all-zero and the store is unchanged except the
/// unconditional watch-time stamp on the one row.
pub proof fn lemma_sync_idempotent(
    pre: StoreV,
    post: StoreV,
    i: int,
    m_pre: MangaV,
    m_post: MangaV,
    rep: SyncReport,
    now: i64,
)
    requires
        store_wf(pre),
        0 <= i < pre.works.len(),
        sync_applied(pre, post, i, m_pre, m_post, rep, now),
        scrape_identical(pre.works[i], m_pre),
    ensures
        !rep.metadata_updated,
        !rep.listing_updated,
        !rep.genres_rewritten,
        !rep.chapters_meta_updated,
        !rep.pages_replaced,
        rep.chapters_added == 0,
        rep.chapters_deleted == 0,
        post.works == pre.works.update(
            i,
            MangaV { last_watch_time: Some(now), ..pre.works[i] },
        ),
        post.listings == pre.listings,
        post.titles == pre.titles,
        post.genres == pre.genres,
        post.sources == pre.sources,
        post.authors == pre.authors,
        m_post == m_pre,
{
    let s = pre.works[i];
    let keep = s.chapters.len() as int;
    let ids = Seq::new(
        appended_count(s.chapters.len() as int, m_pre.chapters.len() as int) as nat,
        |k: int| m_post.chapters[keep + k].chapter_id,
    );
    assert(!listing_changed(s, m_pre));
    assert forall|k: int| 0 <= k < s.chapters.len() implies #[trigger] chapter_synced(
        s.chapters[k],
        m_pre.chapters[k],
    ) == s.chapters[k] by {
        assert(chapter_synced(s.chapters[k], m_pre.chapters[k]) =~= s.chapters[k]);
    }
    assert(synced_row(s, m_pre, ids, now).chapters =~= s.chapters);
    assert(synced_row(s, m_pre, ids, now) =~= (MangaV {
        last_watch_time: Some(now),
        ..pre.works[i]
    }));
    assert(m_post =~= m_pre) by {
        assert(m_post == (MangaV { chapters: m_post.chapters, ..m_pre }));
        assert(m_post.chapters =~= m_pre.chapters);
    }
}

/// Law (election, more trusted incoming): when the fresh work shares a
/// title with an existing main work of strictly higher numeric priority
/// (less trusted), the new row adopts that group's `linked_id`, becomes
/// main, and every pre-existing row of the group is demoted — atomically,
/// within the one insertion.
pub proof fn lemma_election_more_trusted(
    pre: StoreV,
    post: StoreV,
    m: MangaV,
    m_post: MangaV,
    id: Seq<char>,
    lid: Seq<char>,
    pid: Seq<char>,
    cids: Seq<Seq<char>>,
    now: i64,
    pri_a: i32,
    linked_a: Seq<char>,
)
    requires
        insert_post(pre, post, m, m_post, id, lid, pid, cids, now),
        candidate_is(pre, m.titles, pri_a, linked_a),
        m.source.priority < pri_a,
    ensures
        post.works.len() == pre.works.len() + 1,
        post.works.last().is_main,
        post.works.last().linked_id == linked_a,
        forall|j: int|
            0 <= j < pre.works.len() && (#[trigger] pre.works[j]).linked_id == linked_a
                ==> !post.works[j].is_main,
        forall|j: int|
            0 <= j < pre.works.len() && (#[trigger] pre.works[j]).linked_id != linked_a
                ==> post.works[j] == pre.works[j],
{
    crate::insert::lemma_candidate_excludes_none(pre, m.titles, pri_a, linked_a);
    let (pri, linked) = choose|pri: i32, linked: Seq<char>|
        #[trigger] candidate_is(pre, m.titles, pri, linked) && (if m.source.priority == pri {
            m_post.linked_id == lid && post.works == pre.works.push(
                inserted_row(m, id, pid, cids, now, true, lid),
            )
        } else if m.source.priority > pri {
            m_post.linked_id == linked && post.works == pre.works.push(
                inserted_row(m, id, pid, cids, now, false, linked),
            )
        } else {
            m_post.linked_id == linked && post.works == demote_group(pre.works, linked).push(
                inserted_row(m, id, pid, cids, now, true, linked),
            )
        });
    lemma_candidate_unique(pre, m.titles, pri_a, linked_a, pri, linked);
    assert(post.works == demote_group(pre.works, linked_a).push(
        inserted_row(m, id, pid, cids, now, true, linked_a),
    ));
    assert forall|j: int|
        0 <= j < pre.works.len() && (#[trigger] pre.works[j]).linked_id == linked_a implies !post.works[j].is_main by {
        assert(post.works[j] == demote_group(pre.works, linked_a)[j]);
    }
    assert forall|j: int|
        0 <= j < pre.works.len() && (#[trigger] pre.works[j]).linked_id != linked_a implies post.works[j]
        == pre.works[j] by {
        assert(post.works[j] == demote_group(pre.works, linked_a)[j]);
    }
}

/// Law (election, less trusted incoming): when the fresh work shares a
/// title with an existing main work of strictly lower numeric priority
/// (more trusted), the new row adopts that group's `linked_id` but stays
/// non-main, and no existing row moves — the existing main stays main.
pub proof fn lemma_election_less_trusted(
    pre: StoreV,
    post: StoreV,
    m: MangaV,
    m_post: MangaV,
    id: Seq<char>,
    lid: Seq<char>,
    pid: Seq<char>,
    cids: Seq<Seq<char>>,
    now: i64,
    pri_a: i32,
    linked_a: Seq<char>,
)
    requires
        insert_post(pre, post, m, m_post, id, lid, pid, cids, now),
        candidate_is(pre, m.titles, pri_a, linked_a),
        m.source.priority > pri_a,
    ensures
        post.works.len() == pre.works.len() + 1,
        !post.works.last().is_main,
        post.works.last().linked_id == linked_a,
        forall|j: int| 0 <= j < pre.works.len() ==> #[trigger] post.works[j] == pre.works[j],
{
    crate::insert::lemma_candidate_excludes_none(pre, m.titles, pri_a, linked_a);
    let (pri, linked) = choose|pri: i32, linked: Seq<char>|
        #[trigger] candidate_is(pre, m.titles, pri, linked) && (if m.source.priority == pri {
            m_post.linked_id == lid && post.works == pre.works.push(
                inserted_row(m, id, pid, cids, now, true, lid),
            )
        } else if m.source.priority > pri {
            m_post.linked_id == linked && post.works == pre.works.push(
                inserted_row(m, id, pid, cids, now, false, linked),
            )
        } else {
            m_post.linked_id == linked && post.works == demote_group(pre.works, linked).push(
                inserted_row(m, id, pid, cids, now, true, linked),
            )
        });
    lemma_candidate_unique(pre, m.titles, pri_a, linked_a, pri, linked);
    assert(post.works == pre.works.push(inserted_row(m, id, pid, cids, now, false, linked_a)));
}

/// The identity match is deterministic: the first matching title row and
/// the first main record of its group are unique, so any two candidate
/// descriptions agree.
pub proof fn lemma_candidate_unique(
    sv: StoreV,
    names: Seq<Seq<char>>,
    pri1: i32,
    linked1: Seq<char>,
    pri2: i32,
    linked2: Seq<char>,
)
    requires
        candidate_is(sv, names, pri1, linked1),
        candidate_is(sv, names, pri2, linked2),
    ensures
        pri1 == pri2,
        linked1 == linked2,
{
    let (t1, w1) = choose|t: int, w: int|
        first_matching_title(sv.titles, names, t) && #[trigger] first_main_with_linked(
            sv.works,
            sv.titles[t].linked_id,
            w,
        ) && linked1 == sv.titles[t].linked_id && pri1 == sv.works[w].source.priority;
    let (t2, w2) = choose|t: int, w: int|
        first_matching_title(sv.titles, names, t) && #[trigger] first_main_with_linked(
            sv.works,
            sv.titles[t].linked_id,
            w,
        ) && linked2 == sv.titles[t].linked_id && pri2 == sv.works[w].source.priority;
    if t1 < t2 {
        assert(!names.contains(sv.titles[t1].title));
    }
    if t2 < t1 {
        assert(!names.contains(sv.titles[t2].title));
    }
    assert(t1 == t2);
    if w1 < w2 {
        assert(!(sv.works[w1].is_main && sv.works[w1].linked_id == sv.titles[t1].linked_id));
    }
    if w2 < w1 {
        assert(!(sv.works[w2].is_main && sv.works[w2].linked_id == sv.titles[t2].linked_id));
    }
    assert(w1 == w2);
}

/// No title row of the table belongs to the linked group.
pub open spec fn no_title_with_linked(titles: Seq<TitleRowV>, linked: Seq<char>) -> bool {
    forall|j: int| 0 <= j < titles.len() ==> (#[trigger] titles[j]).linked_id != linked
}

/// The titles attached to a fresh linked group after the title upsert are
/// exactly the upserted names, as a set.
pub proof fn lemma_upsert_titles_round_trip(
    titles0: Seq<TitleRowV>,
    names: Seq<Seq<char>>,
    linked: Seq<char>,
)
    requires
        no_title_with_linked(titles0, linked),
    ensures
        forall|x: Seq<char>|
            #[trigger] titles_of(upsert_titles(titles0, names, linked), linked).contains(x)
                <==> names.contains(x),
    decreases names.len(),
{
    let pred = |t: TitleRowV| t.linked_id == linked;
    let f = |t: TitleRowV| t.title;
    if names.len() == 0 {
        assert(upsert_titles(titles0, names, linked) == titles0);
        titles0.lemma_all_neg_filter_empty(pred);
        assert(titles_of(titles0, linked) =~= Seq::<Seq<char>>::empty());
        assert forall|x: Seq<char>| #[trigger] names.contains(x) implies titles_of(
            titles0,
            linked,
        ).contains(x) by {
            let j = choose|j: int| 0 <= j < names.len() && names[j] == x;
        }
    } else {
        let rest = names.drop_last();
        lemma_upsert_titles_round_trip(titles0, rest, linked);
        let prev = upsert_titles(titles0, rest, linked);
        let cur = upsert_titles(titles0, names, linked);
        if title_pair_present(prev, names.last(), linked) {
            assert(cur == prev);
            let j = choose|j: int|
                0 <= j < prev.len() && (#[trigger] prev[j]).title == names.last()
                    && prev[j].linked_id == linked;
            assert(prev.filter(pred).contains(prev[j])) by {
                prev.lemma_filter_contains(pred, j);
            }
            let k = choose|k: int|
                0 <= k < prev.filter(pred).len() && prev.filter(pred)[k] == prev[j];
            assert(titles_of(prev, linked)[k] == names.last());
            assert(titles_of(prev, linked).contains(names.last()));
            assert forall|x: Seq<char>| #[trigger] titles_of(cur, linked).contains(x)
                <==> names.contains(x) by {
                if names.contains(x) {
                    let nj = choose|nj: int| 0 <= nj < names.len() && names[nj] == x;
                    if nj < names.len() - 1 {
                        assert(rest.contains(x)) by {
                            assert(rest[nj] == x);
                        }
                    } else {
                        assert(x == names.last());
                    }
                }
                if titles_of(cur, linked).contains(x) {
                    if rest.contains(x) {
                        let rj = choose|rj: int| 0 <= rj < rest.len() && rest[rj] == x;
                        assert(names[rj] == x);
                        assert(names.contains(x));
                    } else {
                        assert(names.contains(x));
                    }
                }
            }
        } else {
            let row = TitleRowV { title: names.last(), linked_id: linked };
            assert(cur == prev.push(row));
            assert(cur =~= prev + seq![row]);
            Seq::filter_distributes_over_add(prev, seq![row], pred);
            reveal_with_fuel(Seq::filter, 2);
            assert(seq![row].filter(pred) =~= seq![row]);
            assert(cur.filter(pred) =~= prev.filter(pred).push(row));
            assert(titles_of(cur, linked) =~= titles_of(prev, linked).push(names.last()));
            assert forall|x: Seq<char>| #[trigger] titles_of(cur, linked).contains(x)
                <==> names.contains(x) by {
                if titles_of(cur, linked).contains(x) {
                    let k = choose|k: int|
                        0 <= k < titles_of(cur, linked).len() && titles_of(cur, linked)[k] == x;
                    if k < titles_of(prev, linked).len() {
                        assert(titles_of(prev, linked).contains(x)) by {
                            assert(titles_of(prev, linked)[k] == x);
                        }
                        let rj = choose|rj: int| 0 <= rj < rest.len() && rest[rj] == x;
                        assert(names[rj] == x);
                    } else {
                        assert(x == names.last());
                    }
                    assert(names.contains(x));
                }
                if names.contains(x) {
                    let nj = choose|nj: int| 0 <= nj < names.len() && names[nj] == x;
                    if nj < names.len() - 1 {
                        assert(rest.contains(x)) by {
                            assert(rest[nj] == x);
                        }
                        assert(titles_of(prev, linked).contains(x));
                        let k = choose|k: int|
                            0 <= k < titles_of(prev, linked).len() && titles_of(prev, linked)[k]
                                == x;
                        assert(titles_of(cur, linked)[k] == x);
                    } else {
                        assert(titles_of(cur, linked).last() == x);
                    }
                    assert(titles_of(cur, linked).contains(x));
                }
            }
        }
    }
}

/// A genre list in which every entry resolves to itself through the genre
/// table and the cache comes back unchanged from resolution.
pub proof fn lemma_resolved_identity(gs: Seq<GenreV>, table: Seq<GenreV>, cache: Seq<GenreV>)
    requires
        forall|k: int|
            0 <= k < gs.len() ==> resolve_genre(#[trigger] gs[k], table, cache) == Some(gs[k]),
    ensures
        resolved_genres(gs, table, cache) == gs,
    decreases gs.len(),
{
    if gs.len() == 0 {
        assert(resolved_genres(gs, table, cache) =~= gs);
    } else {
        lemma_resolved_identity(gs.drop_last(), table, cache);
        assert(resolve_genre(gs.last(), table, cache) == Some(gs.last()));
        assert(resolved_genres(gs, table, cache) =~= gs.drop_last() + seq![gs.last()]);
        assert(gs.drop_last() + seq![gs.last()] =~= gs);
    }
}

/// Law (round trip): inserting a work that starts a fresh linked group and
/// immediately fetching it back returns the same titles (as a set), the
/// normalized authors and artists (as sequences), the same genres, and
/// content-equal chapters in order.
pub proof fn lemma_insert_round_trip(
    pre: StoreV,
    post: StoreV,
    m: MangaV,
    m_post: MangaV,
    id: Seq<char>,
    lid: Seq<char>,
    pid: Seq<char>,
    cids: Seq<Seq<char>>,
    now: i64,
    cv: crate::types::ContextV,
    fetched: MangaV,
)
    requires
        store_wf(pre),
        insert_post(pre, post, m, m_post, id, lid, pid, cids, now),
        no_candidate(pre, m.titles),
        no_work_with_url(pre.works, m.url),
        !crate::store::some_work_with_linked_id(pre.works, lid),
        cids.len() == m.chapters.len(),
        forall|k: int|
            0 <= k < m.genres.len() ==> resolve_genre(#[trigger] m.genres[k], post.genres, cv.genres)
                == Some(m.genres[k]),
        crate::fetch::fetched_entity(
            post.works,
            post.titles,
            post.genres,
            cv,
            post.works.len() - 1,
            fetched,
        ),
    ensures
        crate::store::is_first_with_url(post.works, m.url, pre.works.len() as int),
        forall|x: Seq<char>| #[trigger] fetched.titles.contains(x) <==> m.titles.contains(x),
        fetched.authors == crate::insert::upper_all(m.authors),
        fetched.artists == crate::insert::lower_all(m.artists),
        fetched.genres == m.genres,
        fetched.chapters.len() == m.chapters.len(),
        forall|k: int|
            0 <= k < m.chapters.len() ==> {
                let c = #[trigger] fetched.chapters[k];
                &&& c.chapter_name == m.chapters[k].chapter_name
                &&& c.chapter_number == m.chapters[k].chapter_number
                &&& c.updated_at == m.chapters[k].updated_at
                &&& c.sequence_number == m.chapters[k].sequence_number
                &&& c.pages.len() == m.chapters[k].pages.len()
                &&& forall|p: int|
                    0 <= p < c.pages.len() ==> (#[trigger] c.pages[p]).url
                        == m.chapters[k].pages[p].url && c.pages[p].page_number
                        == m.chapters[k].pages[p].page_number
            },
{
    // the fresh linked group has no title rows yet: every title row is
    // anchored to some work row's group key, and no work row uses `lid`
    assert(no_title_with_linked(pre.titles, lid)) by {
        assert forall|j: int| 0 <= j < pre.titles.len() implies (
        #[trigger] pre.titles[j]).linked_id != lid by {
            if pre.titles[j].linked_id == lid {
                assert(crate::store::some_work_with_linked_id(pre.works, lid));
            }
        }
    }
    let row = inserted_row(m, id, pid, cids, now, true, lid);
    assert(post.works == pre.works.push(row));
    assert(post.works[post.works.len() - 1] == row);
    assert(crate::store::is_first_with_url(post.works, m.url, pre.works.len() as int)) by {
        assert(forall|j: int|
            0 <= j < pre.works.len() ==> (#[trigger] post.works[j]).url == pre.works[j].url);
    }
    assert(fetched.titles == titles_of(post.titles, lid));
    lemma_upsert_titles_round_trip(pre.titles, m.titles, lid);
    lemma_resolved_identity(m.genres, post.genres, cv.genres);
    assert(fetched.chapters == row.chapters);
    assert forall|k: int| 0 <= k < m.chapters.len() implies {
        let c = #[trigger] fetched.chapters[k];
        &&& c.chapter_name == m.chapters[k].chapter_name
        &&& c.chapter_number == m.chapters[k].chapter_number
        &&& c.updated_at == m.chapters[k].updated_at
        &&& c.sequence_number == m.chapters[k].sequence_number
        &&& c.pages.len() == m.chapters[k].pages.len()
        &&& forall|p: int|
            0 <= p < c.pages.len() ==> (#[trigger] c.pages[p]).url == m.chapters[k].pages[p].url
                && c.pages[p].page_number == m.chapters[k].pages[p].page_number
    } by {
        assert(fetched.chapters[k] == crate::manga::appended_tail(m.chapters, 0, cids, id)[k]);
        let c = fetched.chapters[k];
        assert forall|p: int|
            0 <= p < c.pages.len() implies (#[trigger] c.pages[p]).url == m.chapters[k].pages[p].url
                && c.pages[p].page_number == m.chapters[k].pages[p].page_number by {
            assert(c.pages[p] == rebound_pages(m.chapters[k].pages, cids[k])[p]);
        }
    }
}

/// Law (chapter growth): a fresh list longer than the stored one appends
/// exactly the missing tail — the new chapters take the stored work's
/// identifier and their own fresh identifiers, their sequence numbers
/// continue densely, and a stored chapter whose metadata and pages did not
/// differ is untouched.
pub proof fn lemma_chapter_growth(
    pre: StoreV,
    post: StoreV,
    i: int,
    m_pre: MangaV,
    m_post: MangaV,
    rep: SyncReport,
    now: i64,
)
    requires
        store_wf(pre),
        0 <= i < pre.works.len(),
        sync_applied(pre, post, i, m_pre, m_post, rep, now),
        crate::manga::chapters_dense(m_pre.chapters),
        pre.works[i].chapters.len() < m_pre.chapters.len(),
    ensures
        rep.chapters_added == m_pre.chapters.len() - pre.works[i].chapters.len(),
        rep.chapters_deleted == 0,
        post.works[i].chapters.len() == m_pre.chapters.len(),
        forall|k: int|
            pre.works[i].chapters.len() <= k < m_pre.chapters.len() ==> {
                let c = #[trigger] post.works[i].chapters[k];
                &&& c.sequence_number == k
                &&& c.manga_id == pre.works[i].id
                &&& c.chapter_id == m_post.chapters[k].chapter_id
            },
        forall|k: int|
            0 <= k < pre.works[i].chapters.len() && !chapter_meta_changed(
                #[trigger] pre.works[i].chapters[k],
                m_pre.chapters[k],
            ) && !pages_changed(pre.works[i].chapters[k].pages, m_pre.chapters[k].pages)
                ==> post.works[i].chapters[k] == pre.works[i].chapters[k],
{
    let s = pre.works[i];
    let keep = s.chapters.len() as int;
    let ids = Seq::new(
        appended_count(s.chapters.len() as int, m_pre.chapters.len() as int) as nat,
        |k: int| m_post.chapters[keep + k].chapter_id,
    );
    assert(post.works[i] == synced_row(s, m_pre, ids, now));
    assert forall|k: int|
        keep <= k < m_pre.chapters.len() implies {
        let c = #[trigger] post.works[i].chapters[k];
        &&& c.sequence_number == k
        &&& c.manga_id == s.id
        &&& c.chapter_id == m_post.chapters[k].chapter_id
    } by {
        assert(post.works[i].chapters[k] == crate::manga::appended_tail(
            m_pre.chapters,
            keep,
            ids,
            s.id,
        )[k - keep]);
        assert(m_pre.chapters[k].sequence_number == k);
    }
    assert forall|k: int|
        0 <= k < keep && !chapter_meta_changed(#[trigger] s.chapters[k], m_pre.chapters[k])
            && !pages_changed(s.chapters[k].pages, m_pre.chapters[k].pages) implies post.works[
        i].chapters[k] == s.chapters[k] by {
        assert(post.works[i].chapters[k] == chapter_synced(s.chapters[k], m_pre.chapters[k]));
        assert(chapter_synced(s.chapters[k], m_pre.chapters[k]) =~= s.chapters[k]);
    }
}

/// Law (chapter shrink): a fresh list shorter than the stored one deletes
/// the stored tail (with its pages); the remaining prefix is reconciled
/// pairwise as usual.
pub proof fn lemma_chapter_shrink(
    pre: StoreV,
    post: StoreV,
    i: int,
    m_pre: MangaV,
    m_post: MangaV,
    rep: SyncReport,
    now: i64,
)
    requires
        store_wf(pre),
        0 <= i < pre.works.len(),
        sync_applied(pre, post, i, m_pre, m_post, rep, now),
        pre.works[i].chapters.len() > m_pre.chapters.len(),
    ensures
        rep.chapters_added == 0,
        rep.chapters_deleted == pre.works[i].chapters.len() - m_pre.chapters.len(),
        post.works[i].chapters.len() == m_pre.chapters.len(),
        forall|k: int|
            0 <= k < m_pre.chapters.len() ==> #[trigger] post.works[i].chapters[k]
                == chapter_synced(pre.works[i].chapters[k], m_pre.chapters[k]),
{
    let s = pre.works[i];
    let ids = Seq::new(
        appended_count(s.chapters.len() as int, m_pre.chapters.len() as int) as nat,
        |k: int| m_post.chapters[s.chapters.len() + k].chapter_id,
    );
    assert(post.works[i] == synced_row(s, m_pre, ids, now));
}

/// Law (page replacement): when any page URL differs at a shared position,
/// the pairwise step replaces the chapter's pages wholesale with the fresh
/// set, rebound to the stored chapter — never a partial patch; when none
/// differs on the overlap, the stored pages stay untouched.
pub proof fn lemma_pages_replaced_wholesale(s: ChapterV, m: ChapterV)
    ensures
        pages_changed(s.pages, m.pages) ==> chapter_synced(s, m).pages == rebound_pages(
            m.pages,
            s.chapter_id,
        ),
        !pages_changed(s.pages, m.pages) ==> chapter_synced(s, m).pages == s.pages,
{
}

} // verus!
