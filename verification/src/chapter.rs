//! The chapter/page synchronizer: pairwise positional reconciliation of a
//! stored chapter list against a freshly scraped one, and the length
//! reconciliation that appends new trailing chapters or deletes removed
//! ones. Chapters are compared purely by position, pages purely by URL.
use vstd::prelude::*;

use crate::types::{Chapter, ChapterV, Page, PageV};

verus! {

/// What the pairwise step changed for one chapter.
#[derive(Clone, Copy, Debug)]
pub struct ChapterUpdate {
    pub metadata_updated: bool,
    pub pages_replaced: bool,
}

/// The stored chapter's metadata differs from the fresh one's: name,
/// number or updated-at timestamp.
pub open spec fn chapter_meta_changed(s: ChapterV, m: ChapterV) -> bool {
    s.chapter_name != m.chapter_name || s.chapter_number != m.chapter_number || s.updated_at
        != m.updated_at
}

/// Some page URL differs positionally on the overlapping prefix of the two
/// page lists. Lists of different length whose overlap agrees are *not*
/// treated as changed: only the zipped prefix is compared.
pub open spec fn pages_changed(s: Seq<PageV>, m: Seq<PageV>) -> bool {
    exists|p: int| 0 <= p < s.len() && p < m.len() && (#[trigger] s[p]).url != m[p].url
}

/// The fresh page list rebound to the stored chapter: fresh pages never
/// keep an identifier they carried, and are inserted under the stored
/// chapter's identifier.
pub open spec fn rebound_pages(pages: Seq<PageV>, chapter_id: Seq<char>) -> Seq<PageV> {
    Seq::new(
        pages.len(),
        |p: int|
            PageV {
                id: 0,
                chapter_id: chapter_id,
                url: pages[p].url,
                page_number: pages[p].page_number,
            },
    )
}

/// The stored chapter after one pairwise reconciliation step against the
/// fresh chapter: identifier, parent, sequence number and watch time are
/// kept; the metadata fields move to the fresh values when any of them
/// differs; the pages are replaced wholesale when any URL differs
/// positionally.
pub open spec fn chapter_synced(s: ChapterV, m: ChapterV) -> ChapterV {
    ChapterV {
        chapter_id: s.chapter_id,
        manga_id: s.manga_id,
        sequence_number: s.sequence_number,
        last_watch_time: s.last_watch_time,
        chapter_name: if chapter_meta_changed(s, m) {
            m.chapter_name
        } else {
            s.chapter_name
        },
        chapter_number: if chapter_meta_changed(s, m) {
            m.chapter_number
        } else {
            s.chapter_number
        },
        updated_at: if chapter_meta_changed(s, m) {
            m.updated_at
        } else {
            s.updated_at
        },
        pages: if pages_changed(s.pages, m.pages) {
            rebound_pages(m.pages, s.chapter_id)
        } else {
            s.pages
        },
    }
}

/// A freshly scraped chapter as it is stored: its pages are rebound to the
/// chapter's own identifier and lose any identifier they carried.
pub open spec fn chapter_as_stored(c: ChapterV) -> ChapterV {
    ChapterV { pages: rebound_pages(c.pages, c.chapter_id), ..c }
}

/// A freshly scraped chapter list as it is stored, element for element.
pub open spec fn chapters_as_stored(cs: Seq<ChapterV>) -> Seq<ChapterV> {
    Seq::new(cs.len(), |k: int| chapter_as_stored(cs[k]))
}

/// An identifier occurs in the list.
pub open spec fn id_in_list(id: Seq<char>, ids: Seq<Seq<char>>) -> bool {
    exists|i: int| 0 <= i < ids.len() && ids[i] == id
}

pub(crate) fn eq_opt_i64(a: &Option<i64>, b: &Option<i64>) -> (r: bool)
    ensures
        r == (*a == *b),
{
    match (a, b) {
        (Some(x), Some(y)) => *x == *y,
        (None, None) => true,
        _ => false,
    }
}

fn pages_differ(s: &Vec<Page>, m: &Vec<Page>) -> (r: bool)
    ensures
        r == pages_changed(s.deep_view(), m.deep_view()),
{
    let n: usize = if s.len() < m.len() {
        s.len()
    } else {
        m.len()
    };
    let mut p: usize = 0;
    while p < n
        invariant
            n <= s.len() && n <= m.len(),
            n == vstd::math::min(s.len() as int, m.len() as int),
            p <= n,
            forall|q: int| 0 <= q < p ==> (#[trigger] s.deep_view()[q]).url == m.deep_view()[q].url,
        decreases n - p,
    {
        if s[p].url != m[p].url {
            proof {
                assert(s.deep_view()[p as int].url != m.deep_view()[p as int].url);
            }
            return true;
        }
        p = p + 1;
    }
    false
}

/// Pairwise reconciliation of one stored chapter against its fresh
/// counterpart (§ positional diff): updates the metadata in place when any
/// of name/number/updated-at differs, and replaces the page list wholesale
/// when any page URL differs positionally. The stored identifier,
/// sequence number and watch time never change.
pub fn update_chapter(ori: &mut Chapter, lat: &Chapter) -> (r: ChapterUpdate)
    ensures
        final(ori)@ == chapter_synced(old(ori)@, lat@),
        r.metadata_updated == chapter_meta_changed(old(ori)@, lat@),
        r.pages_replaced == pages_changed(old(ori)@.pages, lat@.pages),
{
    let meta_equal = ori.chapter_name == lat.chapter_name && ori.chapter_number
        == lat.chapter_number && eq_opt_i64(&ori.updated_at, &lat.updated_at);
    let pg_differ = pages_differ(&ori.pages, &lat.pages);

    if !meta_equal {
        ori.chapter_name = lat.chapter_name.clone();
        ori.chapter_number = lat.chapter_number.clone();
        ori.updated_at = lat.updated_at;
    }
    if pg_differ {
        let mut fresh: Vec<Page> = Vec::new();
        let mut p: usize = 0;
        while p < lat.pages.len()
            invariant
                p <= lat.pages.len(),
                fresh.len() == p,
                forall|q: int|
                    0 <= q < p ==> #[trigger] fresh.deep_view()[q] == rebound_pages(
                        lat@.pages,
                        old(ori)@.chapter_id,
                    )[q],
                ori.chapter_id@ == old(ori)@.chapter_id,
            decreases lat.pages.len() - p,
        {
            let ghost pre = fresh.deep_view();
            fresh.push(
                Page {
                    id: 0,
                    chapter_id: ori.chapter_id.clone(),
                    url: lat.pages[p].url.clone(),
                    page_number: lat.pages[p].page_number,
                },
            );
            proof {
                assert forall|q: int|
                    0 <= q < p + 1 implies #[trigger] fresh.deep_view()[q] == rebound_pages(
                    lat@.pages,
                    old(ori)@.chapter_id,
                )[q] by {
                    if q < p {
                        assert(fresh.deep_view()[q] == pre[q]);
                    } else {
                        assert(fresh.deep_view()[q] =~= rebound_pages(
                            lat@.pages,
                            old(ori)@.chapter_id,
                        )[q]);
                    }
                }
            }
            p = p + 1;
        }
        proof {
            assert(fresh.deep_view() =~= rebound_pages(lat@.pages, old(ori)@.chapter_id));
        }
        ori.pages = fresh;
    }
    proof {
        assert(ori@ =~= chapter_synced(old(ori)@, lat@));
    }
    ChapterUpdate { metadata_updated: !meta_equal, pages_replaced: pg_differ }
}

/// Appends brand-new trailing chapters to the stored list; each inserted
/// chapter's pages are stored under the chapter's own identifier (never
/// the parent work's) and drop any identifier they carried.
pub fn add_extra_chaps(stored: &mut Vec<Chapter>, chps: &Vec<Chapter>)
    ensures
        final(stored).deep_view() == old(stored).deep_view() + chapters_as_stored(
            chps.deep_view(),
        ),
{
    let mut k: usize = 0;
    while k < chps.len()
        invariant
            k <= chps.len(),
            stored.len() == old(stored).len() + k,
            forall|j: int| 0 <= j < old(stored).len() ==> stored.deep_view()[j] == old(
                stored,
            ).deep_view()[j],
            forall|j: int|
                0 <= j < k ==> stored.deep_view()[old(stored).len() + j] == chapters_as_stored(
                    chps.deep_view(),
                )[j],
        decreases chps.len() - k,
    {
        let c = &chps[k];
        let mut pages: Vec<Page> = Vec::new();
        let mut p: usize = 0;
        while p < c.pages.len()
            invariant
                p <= c.pages.len(),
                pages.len() == p,
                forall|q: int|
                    0 <= q < p ==> #[trigger] pages.deep_view()[q] == rebound_pages(
                        c@.pages,
                        c@.chapter_id,
                    )[q],
        decreases c.pages.len() - p,
        {
            let ghost pre = pages.deep_view();
            pages.push(
                Page {
                    id: 0,
                    chapter_id: c.chapter_id.clone(),
                    url: c.pages[p].url.clone(),
                    page_number: c.pages[p].page_number,
                },
            );
            proof {
                assert forall|q: int|
                    0 <= q < p + 1 implies #[trigger] pages.deep_view()[q] == rebound_pages(
                    c@.pages,
                    c@.chapter_id,
                )[q] by {
                    if q < p {
                        assert(pages.deep_view()[q] == pre[q]);
                    } else {
                        assert(pages.deep_view()[q] =~= rebound_pages(c@.pages, c@.chapter_id)[q]);
                    }
                }
            }
            p = p + 1;
        }
        proof {
            assert(pages.deep_view() =~= rebound_pages(c@.pages, c@.chapter_id));
        }
        let row = Chapter {
            chapter_id: c.chapter_id.clone(),
            chapter_name: c.chapter_name.clone(),
            chapter_number: c.chapter_number.clone(),
            updated_at: c.updated_at,
            manga_id: c.manga_id.clone(),
            sequence_number: c.sequence_number,
            last_watch_time: c.last_watch_time,
            pages,
        };
        proof {
            assert(row@ =~= chapter_as_stored(chps.deep_view()[k as int]));
        }
        stored.push(row);
        k = k + 1;
    }
    proof {
        assert(stored.deep_view() =~= old(stored).deep_view() + chapters_as_stored(
            chps.deep_view(),
        ));
    }
}

/// Deletes the chapters whose identifiers occur in the given list (their
/// pages go with them); every other chapter is kept in order.
pub fn delete_extra_chaps(stored: &mut Vec<Chapter>, chp_ids: &Vec<String>)
    ensures
        final(stored).deep_view() == old(stored).deep_view().filter(
            |c: ChapterV| !id_in_list(c.chapter_id, chp_ids.deep_view()),
        ),
{
    let ghost pred = |c: ChapterV| !id_in_list(c.chapter_id, chp_ids.deep_view());
    let mut res: Vec<Chapter> = Vec::new();
    let mut k: usize = 0;
    while k < stored.len()
        invariant
            k <= stored.len(),
            res.deep_view() == stored.deep_view().subrange(0, k as int).filter(pred),
            pred == (|c: ChapterV| !id_in_list(c.chapter_id, chp_ids.deep_view())),
        decreases stored.len() - k,
    {
        let ghost prefix = stored.deep_view().subrange(0, k as int);
        let c = &stored[k];
        let mut hit = false;
        let mut i: usize = 0;
        while i < chp_ids.len()
            invariant
                i <= chp_ids.len(),
                hit == exists|j: int|
                    0 <= j < i && chp_ids.deep_view()[j] == c.chapter_id@,
            decreases chp_ids.len() - i,
        {
            if chp_ids[i] == c.chapter_id {
                proof {
                    assert(chp_ids.deep_view()[i as int] == c.chapter_id@);
                }
                hit = true;
            }
            i = i + 1;
        }
        proof {
            assert(hit == id_in_list(c.chapter_id@, chp_ids.deep_view()));
        }
        if !hit {
            res.push(c.clone());
        }
        k = k + 1;
        proof {
            let next = stored.deep_view().subrange(0, k as int);
            assert(next =~= prefix + seq![stored.deep_view()[k - 1]]);
            Seq::filter_distributes_over_add(prefix, seq![stored.deep_view()[k - 1]], pred);
            reveal_with_fuel(Seq::filter, 2);
            assert(seq![stored.deep_view()[k - 1]].filter(pred) =~= if pred(
                stored.deep_view()[k - 1],
            ) {
                seq![stored.deep_view()[k - 1]]
            } else {
                Seq::<ChapterV>::empty()
            });
            assert(res.deep_view() =~= next.filter(pred));
        }
    }
    proof {
        assert(stored.deep_view().subrange(0, stored.len() as int) =~= stored.deep_view());
    }
    *stored = res;
}

/// A filter that keeps a prefix and drops the whole tail is a truncation.
pub proof fn lemma_filter_split_prefix(cs: Seq<ChapterV>, keep: int, pred: spec_fn(ChapterV) -> bool)
    requires
        0 <= keep <= cs.len(),
        forall|k: int| 0 <= k < keep ==> pred(#[trigger] cs[k]),
        forall|k: int| keep <= k < cs.len() ==> !pred(#[trigger] cs[k]),
    ensures
        cs.filter(pred) == cs.subrange(0, keep),
    decreases cs.len(),
{
    reveal_with_fuel(Seq::filter, 2);
    if cs.len() == 0 {
        assert(cs.filter(pred) =~= cs.subrange(0, keep));
    } else if keep < cs.len() {
        assert(!pred(cs.last()));
        lemma_filter_split_prefix(cs.drop_last(), keep, pred);
        assert(cs.drop_last().subrange(0, keep) =~= cs.subrange(0, keep));
        assert(cs.filter(pred) =~= cs.subrange(0, keep));
    } else {
        assert(pred(cs.last()));
        lemma_filter_split_prefix(cs.drop_last(), keep - 1, pred);
        assert(cs.drop_last().subrange(0, keep - 1) =~= cs.drop_last());
        assert(cs.filter(pred) =~= cs.drop_last().push(cs.last()));
        assert(cs.drop_last().push(cs.last()) =~= cs.subrange(0, keep));
    }
}

/// Reverses a freshly scraped chapter list from site order (newest first)
/// into publication order and renumbers it; on a densely numbered input
/// the result is densely numbered from 0.
pub fn reverse_and_renumber(chapters: &mut Vec<Chapter>)
    requires
        old(chapters).len() <= 0x7fff_ffff,
        forall|k: int|
            0 <= k < old(chapters).len() ==> (#[trigger] old(
                chapters,
            ).deep_view()[k]).sequence_number >= 0,
    ensures
        final(chapters).len() == old(chapters).len(),
        forall|k: int|
            0 <= k < old(chapters).len() ==> (#[trigger] final(chapters).deep_view()[k])
                == (ChapterV {
                sequence_number: (old(chapters).len() - 1 - old(chapters).deep_view()[old(
                    chapters,
                ).len() - 1 - k].sequence_number) as i32,
                ..old(chapters).deep_view()[old(chapters).len() - 1 - k]
            }),
{
    let n: usize = chapters.len();
    let mut res: Vec<Chapter> = Vec::new();
    let mut k: usize = 0;
    while k < n
        invariant
            n == chapters.len(),
            n <= 0x7fff_ffff,
            forall|j: int|
                0 <= j < n ==> (#[trigger] chapters.deep_view()[j]).sequence_number >= 0,
            k <= n,
            res.len() == k,
            forall|j: int|
                0 <= j < k ==> (#[trigger] res.deep_view()[j]) == (ChapterV {
                    sequence_number: (n - 1 - chapters.deep_view()[n - 1
                        - j].sequence_number) as i32,
                    ..chapters.deep_view()[n - 1 - j]
                }),
        decreases n - k,
    {
        let mut c = chapters[n - 1 - k].clone();
        proof {
            assert(c@ == chapters.deep_view()[n - 1 - k as int]);
        }
        c.sequence_number = (n as i32) - 1 - c.sequence_number;
        let ghost pre = res.deep_view();
        res.push(c);
        proof {
            assert forall|j: int|
                0 <= j < k + 1 implies (#[trigger] res.deep_view()[j]) == (ChapterV {
                sequence_number: (n - 1 - chapters.deep_view()[n - 1 - j].sequence_number) as i32,
                ..chapters.deep_view()[n - 1 - j]
            }) by {
                if j < k {
                    assert(res.deep_view()[j] == pre[j]);
                } else {
                    assert(res.deep_view()[j] =~= (ChapterV {
                        sequence_number: (n - 1 - chapters.deep_view()[n - 1
                            - j].sequence_number) as i32,
                        ..chapters.deep_view()[n - 1 - j]
                    }));
                }
            }
        }
        k = k + 1;
    }
    *chapters = res;
}

} // verus!
