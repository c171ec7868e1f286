//! The catalog store: the durable state the engine synchronizes. It models
//! a relational layout — work rows, a shared title table keyed by
//! `(title, linked_id)`, genre / source / author tables with unique names,
//! and the denormalized listing projection — together with the
//! well-formedness invariant every mutating operation preserves.
use vstd::prelude::*;

use crate::types::{Chapter, ChapterV, Genre, GenreV, Manga, MangaV, Source, SourceV};

verus! {

/// One row of the title table: an alternate name attached to a linked
/// group. The pair `(title, linked_id)` is unique.
pub struct TitleRow {
    pub title: String,
    pub linked_id: String,
}

/// Mathematical view of a [`TitleRow`].
#[verifier::ext_equal]
pub struct TitleRowV {
    pub title: Seq<char>,
    pub linked_id: Seq<char>,
}

/// One row of the author table: authors and artists share it, keyed by
/// unique name.
pub struct Author {
    pub id: String,
    pub name: String,
}

/// Mathematical view of an [`Author`].
#[verifier::ext_equal]
pub struct AuthorV {
    pub id: Seq<char>,
    pub name: Seq<char>,
}

/// The denormalized listing projection of a work, kept for fast catalog
/// browsing: title-cased comma-joined genres and a truncated description.
pub struct Listing {
    pub manga_id: String,
    pub cover_url: String,
    pub name: String,
    pub genres: String,
    pub description_small: String,
    pub public_id: String,
}

/// Mathematical view of a [`Listing`].
#[verifier::ext_equal]
pub struct ListingV {
    pub manga_id: Seq<char>,
    pub cover_url: Seq<char>,
    pub name: Seq<char>,
    pub genres: Seq<char>,
    pub description_small: Seq<char>,
    pub public_id: Seq<char>,
}

impl Clone for Listing {
    fn clone(&self) -> (res: Self)
        ensures
            res == *self,
    {
        Listing {
            manga_id: self.manga_id.clone(),
            cover_url: self.cover_url.clone(),
            name: self.name.clone(),
            genres: self.genres.clone(),
            description_small: self.description_small.clone(),
            public_id: self.public_id.clone(),
        }
    }
}

/// The whole catalog state.
pub struct Store {
    pub works: Vec<Manga>,
    pub titles: Vec<TitleRow>,
    pub genres: Vec<Genre>,
    pub sources: Vec<Source>,
    pub authors: Vec<Author>,
    pub listings: Vec<Listing>,
}

/// Mathematical view of the [`Store`].
#[verifier::ext_equal]
pub struct StoreV {
    pub works: Seq<MangaV>,
    pub titles: Seq<TitleRowV>,
    pub genres: Seq<GenreV>,
    pub sources: Seq<SourceV>,
    pub authors: Seq<AuthorV>,
    pub listings: Seq<ListingV>,
}

impl View for TitleRow {
    type V = TitleRowV;

    open spec fn view(&self) -> TitleRowV {
        TitleRowV { title: self.title@, linked_id: self.linked_id@ }
    }
}

impl DeepView for TitleRow {
    type V = TitleRowV;

    open spec fn deep_view(&self) -> TitleRowV {
        self.view()
    }
}

impl View for Author {
    type V = AuthorV;

    open spec fn view(&self) -> AuthorV {
        AuthorV { id: self.id@, name: self.name@ }
    }
}

impl DeepView for Author {
    type V = AuthorV;

    open spec fn deep_view(&self) -> AuthorV {
        self.view()
    }
}

impl View for Listing {
    type V = ListingV;

    open spec fn view(&self) -> ListingV {
        ListingV {
            manga_id: self.manga_id@,
            cover_url: self.cover_url@,
            name: self.name@,
            genres: self.genres@,
            description_small: self.description_small@,
            public_id: self.public_id@,
        }
    }
}

impl DeepView for Listing {
    type V = ListingV;

    open spec fn deep_view(&self) -> ListingV {
        self.view()
    }
}

impl View for Store {
    type V = StoreV;

    open spec fn view(&self) -> StoreV {
        StoreV {
            works: self.works.deep_view(),
            titles: self.titles.deep_view(),
            genres: self.genres.deep_view(),
            sources: self.sources.deep_view(),
            authors: self.authors.deep_view(),
            listings: self.listings.deep_view(),
        }
    }
}

impl DeepView for Store {
    type V = StoreV;

    open spec fn deep_view(&self) -> StoreV {
        self.view()
    }
}

/// Every page of the chapter carries the chapter's own identifier.
pub open spec fn pages_wf(c: ChapterV) -> bool {
    forall|p: int| 0 <= p < c.pages.len() ==> (#[trigger] c.pages[p]).chapter_id == c.chapter_id
}

/// The chapters of a work are densely numbered `0..n-1` in list order,
/// carry the work's identifier, have distinct identifiers, and own their
/// pages.
pub open spec fn chapters_wf(w: MangaV) -> bool {
    &&& forall|k: int|
        0 <= k < w.chapters.len() ==> (#[trigger] w.chapters[k]).sequence_number == k
    &&& forall|k: int| 0 <= k < w.chapters.len() ==> (#[trigger] w.chapters[k]).manga_id == w.id
    &&& forall|k: int| 0 <= k < w.chapters.len() ==> pages_wf(#[trigger] w.chapters[k])
    &&& forall|k: int, l: int|
        0 <= k < l < w.chapters.len() ==> w.chapters[k].chapter_id != w.chapters[l].chapter_id
}

/// Canonical URLs are unique across work rows.
pub open spec fn urls_unique(works: Seq<MangaV>) -> bool {
    forall|i: int, j: int| 0 <= i < j < works.len() ==> works[i].url != works[j].url
}

/// Work identifiers are unique across rows.
pub open spec fn work_ids_unique(works: Seq<MangaV>) -> bool {
    forall|i: int, j: int| 0 <= i < j < works.len() ==> works[i].id != works[j].id
}

/// No two distinct rows of one linked group are both main.
pub open spec fn at_most_one_main(works: Seq<MangaV>) -> bool {
    forall|i: int, j: int|
        0 <= i < j < works.len() && works[i].is_main && works[j].is_main ==> works[i].linked_id
            != works[j].linked_id
}

/// Every row belongs to a linked group that has a main record.
pub open spec fn group_has_main(works: Seq<MangaV>) -> bool {
    forall|i: int|
        0 <= i < works.len() ==> exists|j: int|
            0 <= j < works.len() && (#[trigger] works[j]).is_main && works[j].linked_id == (
            #[trigger] works[i]).linked_id
}

/// Genre names are unique in the genre table.
pub open spec fn genre_names_unique(genres: Seq<GenreV>) -> bool {
    forall|i: int, j: int| 0 <= i < j < genres.len() ==> genres[i].name != genres[j].name
}

/// Source names are unique in the source table.
pub open spec fn source_names_unique(sources: Seq<SourceV>) -> bool {
    forall|i: int, j: int| 0 <= i < j < sources.len() ==> sources[i].name != sources[j].name
}

/// Author names are unique in the author table.
pub open spec fn author_names_unique(authors: Seq<AuthorV>) -> bool {
    forall|i: int, j: int| 0 <= i < j < authors.len() ==> authors[i].name != authors[j].name
}

/// No two title rows carry the same `(title, linked_id)` pair.
pub open spec fn title_pairs_unique(titles: Seq<TitleRowV>) -> bool {
    forall|i: int, j: int|
        0 <= i < j < titles.len() ==> !(titles[i].title == titles[j].title && titles[i].linked_id
            == titles[j].linked_id)
}

/// Every title row is attached to a linked group that some work row uses:
/// title rows are only ever written under a stored work's group key.
pub open spec fn titles_anchored(titles: Seq<TitleRowV>, works: Seq<MangaV>) -> bool {
    forall|t: int|
        0 <= t < titles.len() ==> some_work_with_linked_id(
            works,
            (#[trigger] titles[t]).linked_id,
        )
}

/// The store's invariant: the uniqueness constraints of the relational
/// layout, exactly one main record per linked group, and well-formed
/// chapter lists. Every mutating operation of the engine preserves it.
pub open spec fn store_wf(s: StoreV) -> bool {
    &&& urls_unique(s.works)
    &&& work_ids_unique(s.works)
    &&& at_most_one_main(s.works)
    &&& group_has_main(s.works)
    &&& forall|i: int| 0 <= i < s.works.len() ==> chapters_wf(#[trigger] s.works[i])
    &&& genre_names_unique(s.genres)
    &&& source_names_unique(s.sources)
    &&& author_names_unique(s.authors)
    &&& title_pairs_unique(s.titles)
    &&& titles_anchored(s.titles, s.works)
}

/// `i` is the first row whose canonical URL is `url`.
pub open spec fn is_first_with_url(works: Seq<MangaV>, url: Seq<char>, i: int) -> bool {
    &&& 0 <= i < works.len()
    &&& works[i].url == url
    &&& forall|j: int| 0 <= j < i ==> works[j].url != url
}

/// No row has the canonical URL `url`.
pub open spec fn no_work_with_url(works: Seq<MangaV>, url: Seq<char>) -> bool {
    forall|i: int| 0 <= i < works.len() ==> (#[trigger] works[i]).url != url
}

/// `i` is the first row whose identifier is `id`.
pub open spec fn is_first_with_id(works: Seq<MangaV>, id: Seq<char>, i: int) -> bool {
    &&& 0 <= i < works.len()
    &&& works[i].id == id
    &&& forall|j: int| 0 <= j < i ==> works[j].id != id
}

/// No row has the identifier `id`.
pub open spec fn no_work_with_id(works: Seq<MangaV>, id: Seq<char>) -> bool {
    forall|i: int| 0 <= i < works.len() ==> (#[trigger] works[i]).id != id
}

/// Some row uses `linked_id` as its group key.
pub open spec fn some_work_with_linked_id(works: Seq<MangaV>, linked_id: Seq<char>) -> bool {
    exists|i: int| 0 <= i < works.len() && (#[trigger] works[i]).linked_id == linked_id
}

/// A title row with this exact `(title, linked_id)` pair exists.
pub open spec fn title_pair_present(
    titles: Seq<TitleRowV>,
    title: Seq<char>,
    linked_id: Seq<char>,
) -> bool {
    exists|i: int|
        0 <= i < titles.len() && (#[trigger] titles[i]).title == title && titles[i].linked_id
            == linked_id
}

/// An author row with this name exists.
pub open spec fn author_name_present(authors: Seq<AuthorV>, name: Seq<char>) -> bool {
    exists|i: int| 0 <= i < authors.len() && (#[trigger] authors[i]).name == name
}

impl Store {
    /// An empty catalog; it trivially satisfies the invariant.
    pub fn new() -> (res: Store)
        ensures
            res@.works == Seq::<MangaV>::empty(),
            res@.titles == Seq::<TitleRowV>::empty(),
            res@.genres == Seq::<GenreV>::empty(),
            res@.sources == Seq::<SourceV>::empty(),
            res@.authors == Seq::<AuthorV>::empty(),
            res@.listings == Seq::<ListingV>::empty(),
            store_wf(res@),
    {
        let res = Store {
            works: Vec::new(),
            titles: Vec::new(),
            genres: Vec::new(),
            sources: Vec::new(),
            authors: Vec::new(),
            listings: Vec::new(),
        };
        proof {
            assert(res@.works =~= Seq::<MangaV>::empty());
            assert(res@.titles =~= Seq::<TitleRowV>::empty());
            assert(res@.genres =~= Seq::<GenreV>::empty());
            assert(res@.sources =~= Seq::<SourceV>::empty());
            assert(res@.authors =~= Seq::<AuthorV>::empty());
            assert(res@.listings =~= Seq::<ListingV>::empty());
        }
        res
    }

    /// The first row with the given canonical URL, if any.
    pub fn find_work_by_url(&self, url: &String) -> (res: Option<usize>)
        ensures
            match res {
                Some(i) => is_first_with_url(self@.works, url@, i as int),
                None => no_work_with_url(self@.works, url@),
            },
    {
        let mut i: usize = 0;
        while i < self.works.len()
            invariant
                i <= self.works.len(),
                forall|j: int| 0 <= j < i ==> self@.works[j].url != url@,
            decreases self.works.len() - i,
        {
            if self.works[i].url == *url {
                proof {
                    assert(self@.works[i as int].url == url@);
                }
                return Some(i);
            }
            i = i + 1;
        }
        None
    }

    /// The first row with the given identifier, if any.
    pub fn find_work_by_id(&self, id: &String) -> (res: Option<usize>)
        ensures
            match res {
                Some(i) => is_first_with_id(self@.works, id@, i as int),
                None => no_work_with_id(self@.works, id@),
            },
    {
        let mut i: usize = 0;
        while i < self.works.len()
            invariant
                i <= self.works.len(),
                forall|j: int| 0 <= j < i ==> self@.works[j].id != id@,
            decreases self.works.len() - i,
        {
            if self.works[i].id == *id {
                proof {
                    assert(self@.works[i as int].id == id@);
                }
                return Some(i);
            }
            i = i + 1;
        }
        None
    }

    /// Whether some row already uses this linked group key.
    pub fn linked_id_in_use(&self, linked_id: &String) -> (res: bool)
        ensures
            res == some_work_with_linked_id(self@.works, linked_id@),
    {
        let mut i: usize = 0;
        while i < self.works.len()
            invariant
                i <= self.works.len(),
                forall|j: int| 0 <= j < i ==> self@.works[j].linked_id != linked_id@,
            decreases self.works.len() - i,
        {
            if self.works[i].linked_id == *linked_id {
                proof {
                    assert(self@.works[i as int].linked_id == linked_id@);
                }
                return true;
            }
            i = i + 1;
        }
        false
    }

    /// Whether a title row with this exact `(title, linked_id)` pair exists.
    pub fn title_pair_exists(&self, title: &String, linked_id: &String) -> (res: bool)
        ensures
            res == title_pair_present(self@.titles, title@, linked_id@),
    {
        let mut i: usize = 0;
        while i < self.titles.len()
            invariant
                i <= self.titles.len(),
                forall|j: int|
                    0 <= j < i ==> !((#[trigger] self@.titles[j]).title == title@
                        && self@.titles[j].linked_id == linked_id@),
            decreases self.titles.len() - i,
        {
            if self.titles[i].title == *title && self.titles[i].linked_id == *linked_id {
                proof {
                    assert(self@.titles[i as int].title == title@ && self@.titles[
                        i as int].linked_id == linked_id@);
                }
                return true;
            }
            i = i + 1;
        }
        false
    }

    /// Whether the author table has a row with this name.
    pub fn author_exists(&self, name: &String) -> (res: bool)
        ensures
            res == author_name_present(self@.authors, name@),
    {
        let mut i: usize = 0;
        while i < self.authors.len()
            invariant
                i <= self.authors.len(),
                forall|j: int| 0 <= j < i ==> (#[trigger] self@.authors[j]).name != name@,
            decreases self.authors.len() - i,
        {
            if self.authors[i].name == *name {
                proof {
                    assert(self@.authors[i as int].name == name@);
                }
                return true;
            }
            i = i + 1;
        }
        false
    }
}

} // verus!
