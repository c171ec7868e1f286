//! The work synchronizer and identity resolver: incremental diff-based
//! update of a stored work against a fresh scrape, first-time insertion
//! with cross-source identity matching and main-record election, and the
//! read side that reassembles a stored work with its relations.
use vstd::prelude::*;

use crate::chapter::{
    add_extra_chaps, chapter_meta_changed, chapter_synced, delete_extra_chaps, eq_opt_i64,
    id_in_list, lemma_filter_split_prefix, pages_changed, rebound_pages, update_chapter,
    chapters_as_stored,
};
use crate::outside::{comma_joined, fresh_uuid, join_comma, title_case, title_case_of};
use crate::store::{
    is_first_with_url, no_work_with_url, store_wf, Store, StoreV,
};
use crate::types::{clone_genres, Chapter, ChapterV, Genre, GenreV, Manga, MangaV};
use crate::{MSError, MSErrorType, Result};

verus! {

/// What one synchronization run changed, mutation by mutation. Against an
/// identical fresh scrape every field is false or zero: only the
/// unconditional watch-time stamp is performed.
#[derive(Clone, Copy, Debug)]
pub struct SyncReport {
    pub metadata_updated: bool,
    pub listing_updated: bool,
    pub genres_rewritten: bool,
    pub chapters_meta_updated: bool,
    pub pages_replaced: bool,
    pub chapters_added: usize,
    pub chapters_deleted: usize,
}

/// The stored work's displayed metadata differs from the fresh scrape's:
/// name, cover, description, source-reported update time or status.
pub open spec fn metadata_changed(s: MangaV, m: MangaV) -> bool {
    s.name != m.name || s.cover_url != m.cover_url || s.description != m.description
        || s.last_updated != m.last_updated || s.status != m.status
}

/// The subset of the metadata that also feeds the listing projection.
pub open spec fn listing_base_changed(s: MangaV, m: MangaV) -> bool {
    s.name != m.name || s.cover_url != m.cover_url || s.description != m.description
}

/// A genre identity occurs in the list.
pub open spec fn genre_id_present(genres: Seq<GenreV>, id: Seq<char>) -> bool {
    exists|i: int| 0 <= i < genres.len() && (#[trigger] genres[i]).id == id
}

/// The two genre lists carry the same set of genre identities (set
/// equality: order and duplicates are irrelevant).
pub open spec fn genre_sets_match(a: Seq<GenreV>, b: Seq<GenreV>) -> bool {
    &&& forall|i: int| 0 <= i < a.len() ==> genre_id_present(b, (#[trigger] a[i]).id)
    &&& forall|i: int| 0 <= i < b.len() ==> genre_id_present(a, (#[trigger] b[i]).id)
}

/// The genre set changed (set inequality of the resolved identities).
pub open spec fn genre_set_changed(a: Seq<GenreV>, b: Seq<GenreV>) -> bool {
    !genre_sets_match(a, b)
}

/// The listing projection must be recomputed: its base metadata or the
/// genre set changed.
pub open spec fn listing_changed(s: MangaV, m: MangaV) -> bool {
    listing_base_changed(s, m) || genre_set_changed(s.genres, m.genres)
}

/// The flattened genre text of the listing projection: each genre name
/// title-cased, joined with a comma.
pub open spec fn listing_genres_of(genres: Seq<GenreV>) -> Seq<char> {
    comma_joined(Seq::new(genres.len(), |i: int| title_case_of(genres[i].name)))
}

/// The truncated description of the listing projection: the shorter of 255
/// characters or the whole fresh description.
pub open spec fn small_description_of(desc: Seq<char>) -> Seq<char> {
    desc.subrange(0, vstd::math::min(255, desc.len() as int))
}

/// The chapters are densely numbered `0..n-1` in list order, as a scraping
/// adapter is required to deliver them.
pub open spec fn chapters_dense(cs: Seq<ChapterV>) -> bool {
    forall|k: int| 0 <= k < cs.len() ==> (#[trigger] cs[k]).sequence_number == k
}

/// How many chapters a sync appends.
pub open spec fn appended_count(s_len: int, m_len: int) -> int {
    if s_len < m_len {
        m_len - s_len
    } else {
        0
    }
}

/// Some chapter on the overlapping prefix had its metadata updated.
pub open spec fn any_chapter_meta_changed(s: Seq<ChapterV>, m: Seq<ChapterV>) -> bool {
    exists|k: int|
        0 <= k < s.len() && k < m.len() && chapter_meta_changed(#[trigger] s[k], m[k])
}

/// Some chapter on the overlapping prefix had its pages replaced.
pub open spec fn any_chapter_pages_replaced(s: Seq<ChapterV>, m: Seq<ChapterV>) -> bool {
    exists|k: int|
        0 <= k < s.len() && k < m.len() && pages_changed((#[trigger] s[k]).pages, m[k].pages)
}

/// The overlapping prefix after pairwise reconciliation.
pub open spec fn synced_prefix(s: Seq<ChapterV>, m: Seq<ChapterV>) -> Seq<ChapterV> {
    Seq::new(
        vstd::math::min(s.len() as int, m.len() as int) as nat,
        |k: int| chapter_synced(s[k], m[k]),
    )
}

/// The brand-new trailing chapters of a growing sync: each takes one of
/// the freshly generated identifiers, the stored work's identifier, and
/// its pages rebound to its own new identifier.
pub open spec fn appended_tail(
    m: Seq<ChapterV>,
    from: int,
    ids: Seq<Seq<char>>,
    work_id: Seq<char>,
) -> Seq<ChapterV> {
    Seq::new(
        (m.len() - from) as nat,
        |k: int|
            ChapterV {
                chapter_id: ids[k],
                manga_id: work_id,
                pages: rebound_pages(m[from + k].pages, ids[k]),
                ..m[from + k]
            },
    )
}

/// A fresh chapter list under its generated identifiers: each chapter
/// takes one generated identifier and the work's identifier; the pages are
/// untouched (they are rebound only in the stored rows).
pub open spec fn assigned_chapters(
    cs: Seq<ChapterV>,
    chap_ids: Seq<Seq<char>>,
    work_id: Seq<char>,
) -> Seq<ChapterV> {
    Seq::new(
        cs.len(),
        |k: int| ChapterV { chapter_id: chap_ids[k], manga_id: work_id, ..cs[k] },
    )
}

/// The stored chapter list after a whole sync: pairwise reconciliation on
/// the overlapping prefix, then append of the fresh tail or deletion of
/// the stored tail.
pub open spec fn synced_chapters(
    s: Seq<ChapterV>,
    m: Seq<ChapterV>,
    ids: Seq<Seq<char>>,
    work_id: Seq<char>,
) -> Seq<ChapterV> {
    if s.len() < m.len() {
        synced_prefix(s, m) + appended_tail(m, s.len() as int, ids, work_id)
    } else {
        synced_prefix(s, m)
    }
}

/// The stored work row after a whole sync: identity fields never move; the
/// metadata moves together when any of it changed; the genre relation is
/// rewritten when the genre set changed; the chapters are reconciled; the
/// watch time is stamped unconditionally.
pub open spec fn synced_row(s: MangaV, m: MangaV, ids: Seq<Seq<char>>, now: i64) -> MangaV {
    MangaV {
        id: s.id,
        linked_id: s.linked_id,
        is_main: s.is_main,
        is_listed: s.is_listed,
        url: s.url,
        public_id: s.public_id,
        is_old: s.is_old,
        source: s.source,
        titles: s.titles,
        authors: s.authors,
        artists: s.artists,
        name: if metadata_changed(s, m) {
            m.name
        } else {
            s.name
        },
        cover_url: if metadata_changed(s, m) {
            m.cover_url
        } else {
            s.cover_url
        },
        last_updated: if metadata_changed(s, m) {
            m.last_updated
        } else {
            s.last_updated
        },
        status: if metadata_changed(s, m) {
            m.status
        } else {
            s.status
        },
        description: if metadata_changed(s, m) {
            m.description
        } else {
            s.description
        },
        genres: if genre_set_changed(s.genres, m.genres) {
            m.genres
        } else {
            s.genres
        },
        chapters: synced_chapters(s.chapters, m.chapters, ids, s.id),
        last_watch_time: Some(now),
    }
}

/// The listing table with every row of the given work recomputed from the
/// fresh scrape; rows of other works never move.
pub open spec fn recomputed_listings(
    ls: Seq<crate::store::ListingV>,
    work_id: Seq<char>,
    m: MangaV,
) -> Seq<crate::store::ListingV> {
    Seq::new(
        ls.len(),
        |i: int|
            if ls[i].manga_id == work_id {
                crate::store::ListingV {
                    cover_url: m.cover_url,
                    name: m.name,
                    genres: listing_genres_of(m.genres),
                    description_small: small_description_of(m.description),
                    ..ls[i]
                }
            } else {
                ls[i]
            },
    )
}

/// The listing table after a sync: recomputed exactly when the projection
/// changed.
pub open spec fn synced_listings(
    ls: Seq<crate::store::ListingV>,
    s: MangaV,
    m: MangaV,
) -> Seq<crate::store::ListingV> {
    if listing_changed(s, m) {
        recomputed_listings(ls, s.id, m)
    } else {
        ls
    }
}

/// The fresh work value after a sync: only the appended tail of its
/// chapter list was touched — each appended chapter was given a freshly
/// generated identifier and the stored work's identifier.
pub open spec fn mng_tail_assigned(
    m_pre: MangaV,
    m_post: MangaV,
    work_id: Seq<char>,
    keep: int,
) -> bool {
    &&& m_post == MangaV { chapters: m_post.chapters, ..m_pre }
    &&& m_post.chapters.len() == m_pre.chapters.len()
    &&& forall|k: int|
        0 <= k < keep && k < m_pre.chapters.len() ==> #[trigger] m_post.chapters[k]
            == m_pre.chapters[k]
    &&& forall|k: int|
        keep <= k < m_pre.chapters.len() ==> #[trigger] m_post.chapters[k] == (ChapterV {
            chapter_id: m_post.chapters[k].chapter_id,
            manga_id: work_id,
            ..m_pre.chapters[k]
        })
}

/// The generated identifiers of an appended tail are distinct from each
/// other and from every stored chapter's identifier.
pub open spec fn tail_ids_fresh(
    s_chaps: Seq<ChapterV>,
    m_post_chaps: Seq<ChapterV>,
    keep: int,
) -> bool {
    &&& forall|k: int, l: int|
        keep <= k < l < m_post_chaps.len() ==> m_post_chaps[k].chapter_id
            != m_post_chaps[l].chapter_id
    &&& forall|k: int, j: int|
        keep <= k < m_post_chaps.len() && 0 <= j < s_chaps.len() ==> m_post_chaps[k].chapter_id
            != s_chaps[j].chapter_id
}

/// The report tells the truth about every mutation of the sync.
pub open spec fn report_matches(s: MangaV, m: MangaV, rep: SyncReport) -> bool {
    &&& rep.metadata_updated == metadata_changed(s, m)
    &&& rep.listing_updated == listing_changed(s, m)
    &&& rep.genres_rewritten == genre_set_changed(s.genres, m.genres)
    &&& rep.chapters_meta_updated == any_chapter_meta_changed(s.chapters, m.chapters)
    &&& rep.pages_replaced == any_chapter_pages_replaced(s.chapters, m.chapters)
    &&& rep.chapters_added == appended_count(s.chapters.len() as int, m.chapters.len() as int)
    &&& rep.chapters_deleted == (if s.chapters.len() > m.chapters.len() {
        s.chapters.len() - m.chapters.len()
    } else {
        0
    })
}

/// Everything one successful synchronization run guarantees, relating the
/// store and the fresh work before and after: the found row is replaced by
/// its synced form, the listing rows of the work follow, nothing else of
/// the store moves, and the report is truthful.
pub open spec fn sync_applied(
    pre: StoreV,
    post: StoreV,
    i: int,
    m_pre: MangaV,
    m_post: MangaV,
    rep: SyncReport,
    now: i64,
) -> bool {
    let s = pre.works[i];
    let keep = s.chapters.len() as int;
    let ids = Seq::new(
        appended_count(s.chapters.len() as int, m_pre.chapters.len() as int) as nat,
        |k: int| m_post.chapters[keep + k].chapter_id,
    );
    &&& mng_tail_assigned(m_pre, m_post, s.id, keep)
    &&& tail_ids_fresh(s.chapters, m_post.chapters, keep)
    &&& post.works == pre.works.update(i, synced_row(s, m_pre, ids, now))
    &&& post.listings == synced_listings(pre.listings, s, m_pre)
    &&& post.titles == pre.titles
    &&& post.genres == pre.genres
    &&& post.sources == pre.sources
    &&& post.authors == pre.authors
    &&& report_matches(s, m_pre, rep)
}

fn genre_id_in(genres: &Vec<Genre>, id: &String) -> (r: bool)
    ensures
        r == genre_id_present(genres.deep_view(), id@),
{
    let mut i: usize = 0;
    while i < genres.len()
        invariant
            i <= genres.len(),
            forall|j: int| 0 <= j < i ==> (#[trigger] genres.deep_view()[j]).id != id@,
        decreases genres.len() - i,
    {
        if genres[i].id == *id {
            proof {
                assert(genres.deep_view()[i as int].id == id@);
            }
            return true;
        }
        i = i + 1;
    }
    false
}

fn same_genre_set(a: &Vec<Genre>, b: &Vec<Genre>) -> (r: bool)
    ensures
        r == genre_sets_match(a.deep_view(), b.deep_view()),
{
    let mut i: usize = 0;
    while i < a.len()
        invariant
            i <= a.len(),
            forall|j: int|
                0 <= j < i ==> genre_id_present(b.deep_view(), (#[trigger] a.deep_view()[j]).id),
        decreases a.len() - i,
    {
        if !genre_id_in(b, &a[i].id) {
            proof {
                assert(!genre_id_present(b.deep_view(), a.deep_view()[i as int].id));
            }
            return false;
        }
        proof {
            assert(genre_id_present(b.deep_view(), a.deep_view()[i as int].id));
        }
        i = i + 1;
    }
    let mut j: usize = 0;
    while j < b.len()
        invariant
            j <= b.len(),
            forall|k: int|
                0 <= k < a.len() ==> genre_id_present(
                    b.deep_view(),
                    (#[trigger] a.deep_view()[k]).id,
                ),
            forall|k: int|
                0 <= k < j ==> genre_id_present(a.deep_view(), (#[trigger] b.deep_view()[k]).id),
        decreases b.len() - j,
    {
        if !genre_id_in(a, &b[j].id) {
            proof {
                assert(!genre_id_present(a.deep_view(), b.deep_view()[j as int].id));
            }
            return false;
        }
        proof {
            assert(genre_id_present(a.deep_view(), b.deep_view()[j as int].id));
        }
        j = j + 1;
    }
    true
}

/// The flattened listing genre text: each name title-cased, comma-joined.
pub(crate) fn listing_genres(genres: &Vec<Genre>) -> (r: String)
    ensures
        r@ == listing_genres_of(genres.deep_view()),
{
    let mut parts: Vec<String> = Vec::new();
    let mut i: usize = 0;
    while i < genres.len()
        invariant
            i <= genres.len(),
            parts.len() == i,
            forall|j: int|
                0 <= j < i ==> #[trigger] parts.deep_view()[j] == title_case_of(
                    genres.deep_view()[j].name,
                ),
        decreases genres.len() - i,
    {
        let ghost pre = parts.deep_view();
        parts.push(title_case(genres[i].name.as_str()));
        proof {
            assert forall|j: int|
                0 <= j < i + 1 implies #[trigger] parts.deep_view()[j] == title_case_of(
                genres.deep_view()[j].name,
            ) by {
                if j < i {
                    assert(parts.deep_view()[j] == pre[j]);
                }
            }
        }
        i = i + 1;
    }
    let r = join_comma(&parts);
    proof {
        assert(parts.deep_view() =~= Seq::new(
            genres.deep_view().len(),
            |i: int| title_case_of(genres.deep_view()[i].name),
        ));
    }
    r
}

/// The truncated listing description: the first `min(255, len)` characters
/// of the fresh description.
pub(crate) fn small_description(desc: &String) -> (r: String)
    ensures
        r@ == small_description_of(desc@),
{
    let n = desc.as_str().unicode_len();
    let m: usize = if n < 255 {
        n
    } else {
        255
    };
    let cut = desc.as_str().substring_char(0, m);
    String::from_str(cut)
}

pub(crate) fn strings_distinct(v: &Vec<String>) -> (r: bool)
    ensures
        r == (forall|i: int, j: int|
            0 <= i < j < v.len() ==> v.deep_view()[i] != v.deep_view()[j]),
{
    let mut i: usize = 0;
    while i < v.len()
        invariant
            i <= v.len(),
            forall|a: int, b: int| 0 <= a < b < i ==> v.deep_view()[a] != v.deep_view()[b],
        decreases v.len() - i,
    {
        let mut j: usize = 0;
        while j < i
            invariant
                j <= i < v.len(),
                forall|a: int, b: int| 0 <= a < b < i ==> v.deep_view()[a] != v.deep_view()[b],
                forall|a: int| 0 <= a < j ==> v.deep_view()[a] != v.deep_view()[i as int],
            decreases i - j,
        {
            if v[j] == v[i] {
                proof {
                    assert(v.deep_view()[j as int] == v.deep_view()[i as int]);
                }
                return false;
            }
            j = j + 1;
        }
        i = i + 1;
    }
    true
}

fn ids_disjoint_from_chapters(ids: &Vec<String>, chaps: &Vec<Chapter>) -> (r: bool)
    ensures
        r == (forall|i: int, j: int|
            #![trigger ids.deep_view()[i], chaps.deep_view()[j]]
            0 <= i < ids.len() && 0 <= j < chaps.len() ==> ids.deep_view()[i]
                != chaps.deep_view()[j].chapter_id),
{
    let mut i: usize = 0;
    while i < ids.len()
        invariant
            i <= ids.len(),
            forall|a: int, j: int|
                #![trigger ids.deep_view()[a], chaps.deep_view()[j]]
                0 <= a < i && 0 <= j < chaps.len() ==> ids.deep_view()[a]
                    != chaps.deep_view()[j].chapter_id,
        decreases ids.len() - i,
    {
        let mut j: usize = 0;
        while j < chaps.len()
            invariant
                i < ids.len(),
                j <= chaps.len(),
                forall|a: int, b: int|
                    #![trigger ids.deep_view()[a], chaps.deep_view()[b]]
                    0 <= a < i && 0 <= b < chaps.len() ==> ids.deep_view()[a]
                        != chaps.deep_view()[b].chapter_id,
                forall|b: int|
                    0 <= b < j ==> ids.deep_view()[i as int] != (
                    #[trigger] chaps.deep_view()[b]).chapter_id,
            decreases chaps.len() - j,
        {
            if ids[i] == chaps[j].chapter_id {
                proof {
                    assert(ids.deep_view()[i as int] == chaps.deep_view()[j as int].chapter_id);
                }
                return false;
            }
            j = j + 1;
        }
        i = i + 1;
    }
    true
}

/// Applies one combined metadata update: all five displayed fields move
/// to the fresh values together (never a partial field update).
fn apply_metadata(row: &mut Manga, mng: &Manga)
    ensures
        final(row)@ == (MangaV {
            name: mng@.name,
            cover_url: mng@.cover_url,
            last_updated: mng@.last_updated,
            status: mng@.status,
            description: mng@.description,
            ..old(row)@
        }),
{
    row.name = mng.name.clone();
    row.cover_url = mng.cover_url.clone();
    row.last_updated = mng.last_updated;
    row.status = mng.status.clone();
    row.description = mng.description.clone();
    proof {
        assert(row@ =~= (MangaV {
            name: mng@.name,
            cover_url: mng@.cover_url,
            last_updated: mng@.last_updated,
            status: mng@.status,
            description: mng@.description,
            ..old(row)@
        }));
    }
}

/// Recomputes every listing row of the work from the fresh scrape.
fn update_listings(listings: &mut Vec<crate::store::Listing>, work_id: &String, mng: &Manga)
    ensures
        final(listings).deep_view() == recomputed_listings(
            old(listings).deep_view(),
            work_id@,
            mng@,
        ),
{
    let genres_all = listing_genres(&mng.genres);
    let desc_small = small_description(&mng.description);
    let ghost lpre = listings.deep_view();
    let mut l: usize = 0;
    while l < listings.len()
        invariant
            l <= listings.len(),
            listings.len() == lpre.len(),
            genres_all@ == listing_genres_of(mng@.genres),
            desc_small@ == small_description_of(mng@.description),
            forall|p: int|
                0 <= p < l ==> #[trigger] listings.deep_view()[p] == recomputed_listings(
                    lpre,
                    work_id@,
                    mng@,
                )[p],
            forall|p: int| l <= p < lpre.len() ==> #[trigger] listings.deep_view()[p] == lpre[p],
        decreases listings.len() - l,
    {
        let ghost cur = listings.deep_view();
        if listings[l].manga_id == *work_id {
            let mut w = listings[l].clone();
            proof {
                assert(w@ == listings.deep_view()[l as int]);
                assert(w@ == lpre[l as int]);
            }
            w.cover_url = mng.cover_url.clone();
            w.name = mng.name.clone();
            w.genres = genres_all.clone();
            w.description_small = desc_small.clone();
            proof {
                assert(w@ =~= (crate::store::ListingV {
                    cover_url: mng@.cover_url,
                    name: mng@.name,
                    genres: listing_genres_of(mng@.genres),
                    description_small: small_description_of(mng@.description),
                    ..lpre[l as int]
                }));
            }
            listings[l] = w;
            proof {
                assert(listings.deep_view()[l as int] == listings@[l as int]@);
            }
        }
        proof {
            assert forall|p: int|
                0 <= p < l + 1 implies #[trigger] listings.deep_view()[p] == (if p < l {
                recomputed_listings(lpre, work_id@, mng@)[p]
            } else if lpre[p].manga_id == work_id@ {
                crate::store::ListingV {
                    cover_url: mng@.cover_url,
                    name: mng@.name,
                    genres: listing_genres_of(mng@.genres),
                    description_small: small_description_of(mng@.description),
                    ..lpre[p]
                }
            } else {
                lpre[p]
            }) by {
                if p < l {
                    assert(listings.deep_view()[p] == cur[p]);
                } else if lpre[p].manga_id == work_id@ {
                    assert(listings.deep_view()[p] =~= (crate::store::ListingV {
                        cover_url: mng@.cover_url,
                        name: mng@.name,
                        genres: listing_genres_of(mng@.genres),
                        description_small: small_description_of(mng@.description),
                        ..lpre[p]
                    }));
                }
            }
            assert forall|p: int| l + 1 <= p < lpre.len() implies #[trigger] listings.deep_view()[p]
                == lpre[p] by {
                assert(listings.deep_view()[p] == cur[p]);
            }
        }
        l = l + 1;
    }
    proof {
        assert(listings.deep_view() =~= recomputed_listings(lpre, work_id@, mng@));
    }
}

/// Reconciles the overlapping prefix pairwise, chapter by chapter, and
/// reports whether any chapter metadata was updated and whether any page
/// list was replaced.
fn sync_chapter_prefix(chaps: &mut Vec<Chapter>, fresh: &Vec<Chapter>, minc: usize) -> (r: (
    bool,
    bool,
))
    requires
        minc <= old(chaps).len(),
        minc <= fresh.len(),
    ensures
        final(chaps).len() == old(chaps).len(),
        forall|j: int|
            0 <= j < minc ==> #[trigger] final(chaps).deep_view()[j] == chapter_synced(
                old(chaps).deep_view()[j],
                fresh.deep_view()[j],
            ),
        forall|j: int|
            minc <= j < old(chaps).len() ==> #[trigger] final(chaps).deep_view()[j] == old(
                chaps,
            ).deep_view()[j],
        r.0 == exists|j: int|
            0 <= j < minc && chapter_meta_changed(
                #[trigger] old(chaps).deep_view()[j],
                fresh.deep_view()[j],
            ),
        r.1 == exists|j: int|
            0 <= j < minc && pages_changed(
                (#[trigger] old(chaps).deep_view()[j]).pages,
                fresh.deep_view()[j].pages,
            ),
{
    let ghost pre = chaps.deep_view();
    let mut any_meta = false;
    let mut any_pages = false;
    let mut k: usize = 0;
    while k < minc
        invariant
            k <= minc,
            minc <= chaps.len(),
            minc <= fresh.len(),
            chaps.len() == pre.len(),
            pre == old(chaps).deep_view(),
            forall|j: int|
                0 <= j < k ==> #[trigger] chaps.deep_view()[j] == chapter_synced(
                    pre[j],
                    fresh.deep_view()[j],
                ),
            forall|j: int| k <= j < pre.len() ==> #[trigger] chaps.deep_view()[j] == pre[j],
            any_meta == exists|j: int|
                0 <= j < k && chapter_meta_changed(#[trigger] pre[j], fresh.deep_view()[j]),
            any_pages == exists|j: int|
                0 <= j < k && pages_changed((#[trigger] pre[j]).pages, fresh.deep_view()[j].pages),
        decreases minc - k,
    {
        let ghost cur = chaps.deep_view();
        let mut c = chaps[k].clone();
        proof {
            assert(c@ == chaps.deep_view()[k as int]);
            assert(chaps.deep_view()[k as int] == pre[k as int]);
            assert(fresh@[k as int]@ == fresh.deep_view()[k as int]);
        }
        let upd = update_chapter(&mut c, &fresh[k]);
        proof {
            assert(c@ == chapter_synced(pre[k as int], fresh.deep_view()[k as int]));
        }
        chaps[k] = c;
        proof {
            assert(chaps.deep_view()[k as int] == chaps@[k as int]@);
            assert(chaps.deep_view()[k as int] == chapter_synced(pre[k as int], fresh.deep_view()[
                k as int]));
            assert forall|j: int| 0 <= j < k implies #[trigger] chaps.deep_view()[j]
                == chapter_synced(pre[j], fresh.deep_view()[j]) by {
                assert(chaps.deep_view()[j] == cur[j]);
            }
            assert forall|j: int| k + 1 <= j < pre.len() implies #[trigger] chaps.deep_view()[j]
                == pre[j] by {
                assert(chaps.deep_view()[j] == cur[j]);
            }
            if upd.metadata_updated {
                assert(chapter_meta_changed(pre[k as int], fresh.deep_view()[k as int]));
            }
            if upd.pages_replaced {
                assert(pages_changed(pre[k as int].pages, fresh.deep_view()[k as int].pages));
            }
        }
        any_meta = any_meta || upd.metadata_updated;
        any_pages = any_pages || upd.pages_replaced;
        k = k + 1;
    }
    (any_meta, any_pages)
}

/// Gives each brand-new trailing chapter of the fresh work its generated
/// identifier and the stored work's identifier, writing them back into the
/// fresh work value, and returns the prepared tail.
pub(crate) fn assign_tail(mng: &mut Manga, new_ids: &Vec<String>, keep: usize, work_id: &String) -> (tail:
    Vec<Chapter>)
    requires
        keep <= old(mng).chapters.len(),
        new_ids.len() == old(mng).chapters.len() - keep,
    ensures
        final(mng)@ == (MangaV { chapters: final(mng)@.chapters, ..old(mng)@ }),
        final(mng)@.chapters.len() == old(mng)@.chapters.len(),
        forall|p: int|
            0 <= p < keep ==> #[trigger] final(mng)@.chapters[p] == old(mng)@.chapters[p],
        forall|p: int|
            keep <= p < old(mng)@.chapters.len() ==> #[trigger] final(mng)@.chapters[p]
                == (ChapterV {
                chapter_id: new_ids.deep_view()[p - keep],
                manga_id: work_id@,
                ..old(mng)@.chapters[p]
            }),
        tail.deep_view() == final(mng)@.chapters.subrange(
            keep as int,
            old(mng)@.chapters.len() as int,
        ),
{
    let mcount = mng.chapters.len();
    let mut tail: Vec<Chapter> = Vec::new();
    let mut j: usize = keep;
    while j < mcount
        invariant
            keep <= j <= mcount,
            mcount == mng.chapters.len(),
            new_ids.len() == mcount - keep,
            mng@ == (MangaV { chapters: mng@.chapters, ..old(mng)@ }),
            mng@.chapters.len() == old(mng)@.chapters.len(),
            forall|p: int| 0 <= p < keep ==> #[trigger] mng@.chapters[p] == old(mng)@.chapters[p],
            forall|p: int| j <= p < mcount ==> #[trigger] mng@.chapters[p] == old(mng)@.chapters[p],
            forall|p: int|
                keep <= p < j ==> #[trigger] mng@.chapters[p] == (ChapterV {
                    chapter_id: new_ids.deep_view()[p - keep],
                    manga_id: work_id@,
                    ..old(mng)@.chapters[p]
                }),
            tail.len() == j - keep,
            forall|p: int|
                0 <= p < j - keep ==> #[trigger] tail.deep_view()[p] == mng@.chapters[keep + p],
        decreases mcount - j,
    {
        let ghost mpre = mng@.chapters;
        let mut c = mng.chapters[j].clone();
        proof {
            assert(c@ == mpre[j as int]);
            assert(mpre[j as int] == old(mng)@.chapters[j as int]);
        }
        c.chapter_id = new_ids[j - keep].clone();
        c.manga_id = work_id.clone();
        proof {
            assert(c@ =~= (ChapterV {
                chapter_id: new_ids.deep_view()[j - keep],
                manga_id: work_id@,
                ..old(mng)@.chapters[j as int]
            }));
        }
        mng.chapters[j] = c;
        proof {
            assert(mng@ =~= (MangaV { chapters: mng@.chapters, ..old(mng)@ }));
            assert(mng@.chapters[j as int] == mng.chapters@[j as int]@);
            assert forall|p: int| 0 <= p < mcount && p != j implies #[trigger] mng@.chapters[p]
                == mpre[p] by {
                assert(mng@.chapters[p] == mng.chapters@[p]@);
            }
        }
        let ghost tpre = tail.deep_view();
        tail.push(mng.chapters[j].clone());
        proof {
            assert forall|p: int|
                0 <= p < j - keep + 1 implies #[trigger] tail.deep_view()[p] == mng@.chapters[keep
                + p] by {
                if p < j - keep {
                    assert(tail.deep_view()[p] == tpre[p]);
                }
            }
        }
        j = j + 1;
    }
    proof {
        assert(tail.deep_view() =~= mng@.chapters.subrange(keep as int, mcount as int));
    }
    tail
}

/// Collects the identifiers of the stored chapters past the fresh list's
/// length: the tail to delete.
fn collect_tail_ids(chaps: &Vec<Chapter>, from: usize) -> (ids: Vec<String>)
    requires
        from <= chaps.len(),
    ensures
        ids.len() == chaps.len() - from,
        forall|p: int|
            0 <= p < ids.len() ==> #[trigger] ids.deep_view()[p] == chaps.deep_view()[from
                + p].chapter_id,
{
    let mut ids: Vec<String> = Vec::new();
    let mut j: usize = from;
    while j < chaps.len()
        invariant
            from <= j <= chaps.len(),
            ids.len() == j - from,
            forall|p: int|
                0 <= p < j - from ==> #[trigger] ids.deep_view()[p] == chaps.deep_view()[from
                    + p].chapter_id,
        decreases chaps.len() - j,
    {
        let ghost tpre = ids.deep_view();
        ids.push(chaps[j].chapter_id.clone());
        proof {
            assert forall|p: int|
                0 <= p < j - from + 1 implies #[trigger] ids.deep_view()[p] == chaps.deep_view()[
                from + p].chapter_id by {
                if p < j - from {
                    assert(ids.deep_view()[p] == tpre[p]);
                }
            }
        }
        j = j + 1;
    }
    ids
}

/// Synchronizes the stored work that owns the fresh scrape's canonical URL
/// (the work synchronizer): a field-wise metadata test drives one combined
/// metadata update; the listing projection is recomputed when its inputs
/// changed; the genre relation is rewritten on set inequality; chapters
/// are reconciled pairwise by position and the length difference is
/// appended or deleted; the watch time is stamped unconditionally, even
/// when nothing else changed. Appended chapters receive freshly generated
/// identifiers, written back into the fresh work value; a generated
/// identifier that collides is reported as an error before anything is
/// stored.
#[verifier::rlimit(100)]
fn apply_sync(mng: &mut Manga, store: &mut Store, idx: usize, new_ids: Vec<String>, now: i64) -> (
    rep: SyncReport)
    requires
        store_wf(old(store)@),
        chapters_dense(old(mng)@.chapters),
        idx < old(store)@.works.len(),
        new_ids.len() == appended_count(
            old(store)@.works[idx as int].chapters.len() as int,
            old(mng)@.chapters.len() as int,
        ),
        forall|i: int, j: int|
            0 <= i < j < new_ids.len() ==> new_ids.deep_view()[i] != new_ids.deep_view()[j],
        forall|i: int, j: int|
            #![trigger new_ids.deep_view()[i], old(store)@.works[idx as int].chapters[j]]
            0 <= i < new_ids.len() && 0 <= j < old(store)@.works[idx as int].chapters.len()
                ==> new_ids.deep_view()[i] != old(store)@.works[idx as int].chapters[j].chapter_id,
    ensures
        store_wf(final(store)@),
        sync_applied(old(store)@, final(store)@, idx as int, old(mng)@, final(mng)@, rep, now),
{
    let ghost s0 = store@.works[idx as int];
    let scount = store.works[idx].chapters.len();
    let mcount = mng.chapters.len();
    let mut row = store.works[idx].clone();
    proof {
        assert(row@ == s0);
    }

    // Field-wise change tests, computed against the stored row before any
    // mutation (pure comparisons driving the conditional updates).
    let base_eq = row.name == mng.name && row.cover_url == mng.cover_url && row.description
        == mng.description;
    let meta_eq = base_eq && eq_opt_i64(&row.last_updated, &mng.last_updated) && row.status
        == mng.status;
    let genres_same = same_genre_set(&row.genres, &mng.genres);
    proof {
        assert((!meta_eq) == metadata_changed(s0, mng@));
        assert((!base_eq) == listing_base_changed(s0, mng@));
        assert((!genres_same) == genre_set_changed(s0.genres, mng@.genres));
    }

    // One combined metadata update when any displayed field differs.
    if !meta_eq {
        apply_metadata(&mut row, mng);
    }

    // Listing projection recomputation when its inputs changed.
    if !base_eq || !genres_same {
        update_listings(&mut store.listings, &row.id, mng);
    }
    proof {
        assert(store@.listings =~= synced_listings(old(store)@.listings, s0, mng@));
        assert(store@.works == old(store)@.works);
        assert(store@.titles == old(store)@.titles);
        assert(store@.genres == old(store)@.genres);
        assert(store@.sources == old(store)@.sources);
        assert(store@.authors == old(store)@.authors);
    }

    // Genre relation rewrite on set inequality.
    if !genres_same {
        row.genres = clone_genres(&mng.genres);
    }

    // Pairwise chapter reconciliation over the overlapping prefix.
    let minc: usize = if scount < mcount {
        scount
    } else {
        mcount
    };
    let ghost row_mid = row@;
    let (any_meta, any_pages) = sync_chapter_prefix(&mut row.chapters, &mng.chapters, minc);
    proof {
        assert(row@ =~= (MangaV { chapters: row@.chapters, ..row_mid }));
        assert(any_meta == any_chapter_meta_changed(s0.chapters, mng@.chapters));
        assert(any_pages == any_chapter_pages_replaced(s0.chapters, mng@.chapters));
    }

    // Length reconciliation: append the fresh tail or delete the stored one.
    let mut added: usize = 0;
    let mut deleted: usize = 0;
    let ghost ids = Seq::new(
        appended_count(scount as int, mcount as int) as nat,
        |t: int| new_ids.deep_view()[t],
    );
    if scount < mcount {
        let tail = assign_tail(mng, &new_ids, scount, &row.id);
        add_extra_chaps(&mut row.chapters, &tail);
        proof {
            assert(row@.chapters =~= synced_prefix(s0.chapters, mng@.chapters) + chapters_as_stored(
                tail.deep_view(),
            ));
            assert(chapters_as_stored(tail.deep_view()) =~= appended_tail(
                mng@.chapters,
                scount as int,
                ids,
                s0.id,
            ));
            assert(appended_tail(mng@.chapters, scount as int, ids, s0.id) =~= appended_tail(
                old(mng)@.chapters,
                scount as int,
                ids,
                s0.id,
            ));
        }
        added = mcount - scount;
    } else if scount > mcount {
        let tail_ids = collect_tail_ids(&row.chapters, mcount);
        let ghost pre_del = row.chapters.deep_view();
        let ghost pred = |c: ChapterV| !id_in_list(c.chapter_id, tail_ids.deep_view());
        delete_extra_chaps(&mut row.chapters, &tail_ids);
        proof {
            // The stored chapter identifiers are distinct (store invariant),
            // so deleting the tail identifiers removes exactly the tail.
            assert forall|p: int| 0 <= p < mcount implies pred(#[trigger] pre_del[p]) by {
                assert(pre_del[p].chapter_id == s0.chapters[p].chapter_id);
                if id_in_list(pre_del[p].chapter_id, tail_ids.deep_view()) {
                    let w = choose|t: int|
                        0 <= t < tail_ids.deep_view().len() && tail_ids.deep_view()[t]
                            == pre_del[p].chapter_id;
                    assert(pre_del[mcount + w].chapter_id == s0.chapters[mcount + w].chapter_id);
                    assert(s0.chapters[mcount + w].chapter_id == s0.chapters[p].chapter_id);
                }
            }
            assert forall|p: int| mcount <= p < pre_del.len() implies !pred(
                #[trigger] pre_del[p],
            ) by {
                assert(tail_ids.deep_view()[p - mcount] == pre_del[p].chapter_id);
            }
            lemma_filter_split_prefix(pre_del, mcount as int, pred);
            assert(row.chapters.deep_view() =~= pre_del.subrange(0, mcount as int));
            assert(row@.chapters =~= synced_prefix(s0.chapters, mng@.chapters));
        }
        deleted = scount - mcount;
    } else {
        proof {
            assert(row@.chapters =~= synced_prefix(s0.chapters, mng@.chapters));
        }
    }

    // The unconditional watch-time stamp, the run's last-synced marker.
    row.last_watch_time = Some(now);

    proof {
        assert(row@.chapters =~= synced_chapters(s0.chapters, old(mng)@.chapters, ids, s0.id));
        assert(row@ =~= synced_row(s0, old(mng)@, ids, now));
    }
    store.works[idx] = row;
    proof {
        assert(store@.works =~= old(store)@.works.update(
            idx as int,
            synced_row(s0, old(mng)@, ids, now),
        ));
    }

    let rep = SyncReport {
        metadata_updated: !meta_eq,
        listing_updated: !base_eq || !genres_same,
        genres_rewritten: !genres_same,
        chapters_meta_updated: any_meta,
        pages_replaced: any_pages,
        chapters_added: added,
        chapters_deleted: deleted,
    };
    proof {
        assert(ids =~= Seq::new(
            appended_count(s0.chapters.len() as int, old(mng)@.chapters.len() as int) as nat,
            |t: int| final(mng)@.chapters[s0.chapters.len() + t].chapter_id,
        ));
        assert(mng_tail_assigned(old(mng)@, mng@, s0.id, scount as int)) by {
            assert(mng@ =~= (MangaV { chapters: mng@.chapters, ..old(mng)@ }));
        }
        assert(sync_applied(old(store)@, store@, idx as int, old(mng)@, mng@, rep, now));
        lemma_sync_preserves_wf(old(store)@, store@, idx as int, old(mng)@, mng@, ids, now);
    }
    rep
}

/// Synchronizes the stored work that owns the fresh scrape's canonical URL
/// (the work synchronizer): a field-wise metadata test drives one combined
/// metadata update; the listing projection is recomputed when its inputs
/// changed; the genre relation is rewritten on set inequality; chapters
/// are reconciled pairwise by position and the length difference is
/// appended or deleted; the watch time is stamped unconditionally, even
/// when nothing else changed. Appended chapters receive freshly generated
/// identifiers, written back into the fresh work value; a generated
/// identifier that collides is reported as an error before anything is
/// stored.
pub fn update_manga(mng: &mut Manga, store: &mut Store, now: i64) -> (r: Result<SyncReport>)
    requires
        store_wf(old(store)@),
        chapters_dense(old(mng)@.chapters),
    ensures
        store_wf(final(store)@),
        no_work_with_url(old(store)@.works, old(mng)@.url) ==> r is Err,
        forall|i: int|
            #[trigger] is_first_with_url(old(store)@.works, old(mng)@.url, i) && old(
                store,
            )@.works[i].chapters.len() >= old(mng)@.chapters.len() ==> r is Ok,
        match r {
            Ok(rep) => exists|i: int|
                #[trigger] is_first_with_url(old(store)@.works, old(mng)@.url, i) && sync_applied(
                    old(store)@,
                    final(store)@,
                    i,
                    old(mng)@,
                    final(mng)@,
                    rep,
                    now,
                ),
            Err(e) => {
                &&& final(store)@ == old(store)@
                &&& final(mng)@ == old(mng)@
                &&& (no_work_with_url(old(store)@.works, old(mng)@.url) <==> e.err_type
                    is SQLError)
                &&& (!no_work_with_url(old(store)@.works, old(mng)@.url) ==> e.err_type
                    is OtherError)
            },
        },
{
    let idx = match store.find_work_by_url(&mng.url) {
        None => {
            return Err(
                MSError {
                    message: String::from_str("no stored work with this url"),
                    err_type: MSErrorType::SQLError,
                },
            );
        },
        Some(i) => i,
    };
    proof {
        assert(is_first_with_url(store@.works, mng@.url, idx as int));
    }
    let scount = store.works[idx].chapters.len();
    let mcount = mng.chapters.len();

    // Generated identifiers for a growing tail, checked for freshness
    // before anything is mutated: a collision is reported, never stored.
    let mut new_ids: Vec<String> = Vec::new();
    if scount < mcount {
        let mut t: usize = 0;
        while t < mcount - scount
            invariant
                t <= mcount - scount,
                new_ids.len() == t,
            decreases mcount - scount - t,
        {
            new_ids.push(fresh_uuid());
            t = t + 1;
        }
        let ok1 = strings_distinct(&new_ids);
        let ok2 = ids_disjoint_from_chapters(&new_ids, &store.works[idx].chapters);
        if !ok1 || !ok2 {
            proof {
                // a collision can only be reported for a growing sync: the
                // first row with this URL is unique, and here its stored
                // chapter list is shorter than the fresh one
                assert forall|i: int|
                    is_first_with_url(old(store)@.works, old(mng)@.url, i) implies i
                    == idx as int by {
                    if i < idx as int {
                        assert(old(store)@.works[i].url != old(mng)@.url);
                    }
                    if (idx as int) < i {
                        assert(old(store)@.works[idx as int].url != old(mng)@.url);
                    }
                }
            }
            return Err(
                MSError {
                    message: String::from_str("generated chapter identifiers collided"),
                    err_type: MSErrorType::OtherError,
                },
            );
        }
    }
    let rep = apply_sync(mng, store, idx, new_ids, now);
    Ok(rep)
}

/// Replacing one row by its synced form preserves the store invariant:
/// the identity fields of the row never move, and the reconciled chapter
/// list is again dense, owned and distinct.
#[verifier::rlimit(100)]
proof fn lemma_sync_preserves_wf(
    pre: StoreV,
    post: StoreV,
    i: int,
    m_pre: MangaV,
    m_post: MangaV,
    ids: Seq<Seq<char>>,
    now: i64,
)
    requires
        store_wf(pre),
        0 <= i < pre.works.len(),
        chapters_dense(m_pre.chapters),
        post.works == pre.works.update(i, synced_row(pre.works[i], m_pre, ids, now)),
        post.titles == pre.titles,
        post.genres == pre.genres,
        post.sources == pre.sources,
        post.authors == pre.authors,
        ids.len() == appended_count(
            pre.works[i].chapters.len() as int,
            m_pre.chapters.len() as int,
        ),
        forall|k: int, l: int| 0 <= k < l < ids.len() ==> ids[k] != ids[l],
        forall|k: int, j: int|
            #![trigger ids[k], pre.works[i].chapters[j]]
            0 <= k < ids.len() && 0 <= j < pre.works[i].chapters.len() ==> ids[k]
                != pre.works[i].chapters[j].chapter_id,
    ensures
        store_wf(post),
{
    let s = pre.works[i];
    let row = synced_row(s, m_pre, ids, now);
    assert(row.url == s.url && row.id == s.id && row.linked_id == s.linked_id && row.is_main
        == s.is_main);
    assert(crate::store::urls_unique(post.works)) by {
        assert(forall|a: int|
            0 <= a < post.works.len() ==> (#[trigger] post.works[a]).url == pre.works[a].url);
    }
    assert(crate::store::work_ids_unique(post.works)) by {
        assert(forall|a: int|
            0 <= a < post.works.len() ==> (#[trigger] post.works[a]).id == pre.works[a].id);
    }
    assert(crate::store::at_most_one_main(post.works)) by {
        assert(forall|a: int|
            0 <= a < post.works.len() ==> (#[trigger] post.works[a]).is_main
                == pre.works[a].is_main && (#[trigger] post.works[a]).linked_id
                == pre.works[a].linked_id);
    }
    assert(crate::store::group_has_main(post.works)) by {
        assert forall|a: int| 0 <= a < post.works.len() implies exists|b: int|
            0 <= b < post.works.len() && (#[trigger] post.works[b]).is_main
                && post.works[b].linked_id == (#[trigger] post.works[a]).linked_id by {
            assert(pre.works[a].linked_id == post.works[a].linked_id);
            let w = choose|b: int|
                0 <= b < pre.works.len() && (#[trigger] pre.works[b]).is_main
                    && pre.works[b].linked_id == pre.works[a].linked_id;
            assert(post.works[w].is_main && post.works[w].linked_id == post.works[a].linked_id);
        }
    }
    assert(crate::store::titles_anchored(post.titles, post.works)) by {
        assert forall|t: int|
            0 <= t < post.titles.len() implies crate::store::some_work_with_linked_id(
            post.works,
            (#[trigger] post.titles[t]).linked_id,
        ) by {
            assert(post.titles[t] == pre.titles[t]);
            let w = choose|b: int|
                0 <= b < pre.works.len() && (#[trigger] pre.works[b]).linked_id
                    == pre.titles[t].linked_id;
            assert(post.works[w].linked_id == pre.titles[t].linked_id);
        }
    }
    assert(crate::store::chapters_wf(row)) by {
        lemma_synced_chapters_wf(s, m_pre, ids);
    }
    assert forall|a: int| 0 <= a < post.works.len() implies crate::store::chapters_wf(
        #[trigger] post.works[a],
    ) by {
        if a != i {
            assert(post.works[a] == pre.works[a]);
        } else {
            assert(post.works[a] == row);
        }
    }
}

/// The reconciled chapter list of a work is again well formed: densely
/// numbered, owned by the work, with distinct identifiers and pages bound
/// to their chapter.
proof fn lemma_synced_chapters_wf(s: MangaV, m: MangaV, ids: Seq<Seq<char>>)
    requires
        crate::store::chapters_wf(s),
        chapters_dense(m.chapters),
        ids.len() == appended_count(s.chapters.len() as int, m.chapters.len() as int),
        forall|k: int, l: int| 0 <= k < l < ids.len() ==> ids[k] != ids[l],
        forall|k: int, j: int|
            #![trigger ids[k], s.chapters[j]]
            0 <= k < ids.len() && 0 <= j < s.chapters.len() ==> ids[k]
                != s.chapters[j].chapter_id,
    ensures
        crate::store::chapters_wf(
            MangaV { chapters: synced_chapters(s.chapters, m.chapters, ids, s.id), ..s },
        ),
{
    let cs = synced_chapters(s.chapters, m.chapters, ids, s.id);
    let keep = s.chapters.len() as int;
    let w = MangaV { chapters: cs, ..s };
    assert forall|k: int| 0 <= k < cs.len() implies (#[trigger] cs[k]).sequence_number == k
        && cs[k].manga_id == w.id && crate::store::pages_wf(cs[k]) by {
        if k < keep && k < m.chapters.len() {
            assert(cs[k] == chapter_synced(s.chapters[k], m.chapters[k]));
            assert(s.chapters[k].sequence_number == k);
            assert(crate::store::pages_wf(s.chapters[k]));
            if pages_changed(s.chapters[k].pages, m.chapters[k].pages) {
                assert forall|p: int| 0 <= p < cs[k].pages.len() implies (
                #[trigger] cs[k].pages[p]).chapter_id == cs[k].chapter_id by {
                    assert(cs[k].pages[p] == rebound_pages(
                        m.chapters[k].pages,
                        s.chapters[k].chapter_id,
                    )[p]);
                }
            }
        } else if k < keep {
            assert(cs[k] == chapter_synced(s.chapters[k], m.chapters[k]));
        } else {
            assert(cs[k] == appended_tail(m.chapters, keep, ids, s.id)[k - keep]);
            assert(m.chapters[k].sequence_number == k);
            assert forall|p: int| 0 <= p < cs[k].pages.len() implies (
            #[trigger] cs[k].pages[p]).chapter_id == cs[k].chapter_id by {
                assert(cs[k].pages[p] == rebound_pages(m.chapters[k].pages, ids[k - keep])[p]);
            }
        }
    }
    assert forall|k: int, l: int| 0 <= k < l < cs.len() implies cs[k].chapter_id
        != cs[l].chapter_id by {
        let ck = if k < keep {
            s.chapters[k].chapter_id
        } else {
            ids[k - keep]
        };
        let cl = if l < keep {
            s.chapters[l].chapter_id
        } else {
            ids[l - keep]
        };
        assert(cs[k].chapter_id == ck);
        assert(cs[l].chapter_id == cl);
    }
}

} // verus!
