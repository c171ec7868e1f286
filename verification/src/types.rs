//! The data model: works, chapters, pages, genres and sources, plus the
//! read-only reference cache (`Context`) that maps genre and source names
//! to their identities. Each executable type has a mathematical view
//! (`GenreV`, `SourceV`, ...) over which all contracts are stated.
use vstd::prelude::*;

verus! {

/// A genre identity: created at most once per distinct name, immutable
/// thereafter.
pub struct Genre {
    pub id: String,
    pub name: String,
}

/// Mathematical view of a [`Genre`].
#[verifier::ext_equal]
pub struct GenreV {
    pub id: Seq<char>,
    pub name: Seq<char>,
}

/// A content source. `priority` is its trust rank: a lower value means a
/// more trusted source and wins main-record election.
pub struct Source {
    pub id: String,
    pub name: String,
    pub priority: i32,
}

/// Mathematical view of a [`Source`].
#[verifier::ext_equal]
pub struct SourceV {
    pub id: Seq<char>,
    pub name: Seq<char>,
    pub priority: i32,
}

/// One page image of a chapter. For diffing, two pages are equal exactly
/// when their URLs are equal; they are compared pairwise by position.
pub struct Page {
    pub id: i64,
    pub chapter_id: String,
    pub url: String,
    pub page_number: i32,
}

/// Mathematical view of a [`Page`].
#[verifier::ext_equal]
pub struct PageV {
    pub id: i64,
    pub chapter_id: Seq<char>,
    pub url: Seq<char>,
    pub page_number: i32,
}

/// One chapter of a work, with its ordered pages. `sequence_number` is the
/// 0-based reading order, dense within a work.
pub struct Chapter {
    pub chapter_id: String,
    pub chapter_name: String,
    pub chapter_number: String,
    pub updated_at: Option<i64>,
    pub manga_id: String,
    pub sequence_number: i32,
    pub last_watch_time: i64,
    pub pages: Vec<Page>,
}

/// Mathematical view of a [`Chapter`].
#[verifier::ext_equal]
pub struct ChapterV {
    pub chapter_id: Seq<char>,
    pub chapter_name: Seq<char>,
    pub chapter_number: Seq<char>,
    pub updated_at: Option<i64>,
    pub manga_id: Seq<char>,
    pub sequence_number: i32,
    pub last_watch_time: i64,
    pub pages: Seq<PageV>,
}

/// A work (a manga/series), both as a stored record and as the normalized
/// shape a scraping adapter produces. `linked_id` groups all sources'
/// records of the same logical work; within a group exactly one record has
/// `is_main == true`.
pub struct Manga {
    pub id: String,
    pub linked_id: String,
    pub is_main: bool,
    pub is_listed: bool,
    pub name: String,
    pub cover_url: String,
    pub url: String,
    pub last_updated: Option<i64>,
    pub status: String,
    pub description: String,
    pub last_watch_time: Option<i64>,
    pub public_id: String,
    pub is_old: bool,
    pub source: Source,
    pub titles: Vec<String>,
    pub authors: Vec<String>,
    pub artists: Vec<String>,
    pub genres: Vec<Genre>,
    pub chapters: Vec<Chapter>,
}

/// Mathematical view of a [`Manga`].
#[verifier::ext_equal]
pub struct MangaV {
    pub id: Seq<char>,
    pub linked_id: Seq<char>,
    pub is_main: bool,
    pub is_listed: bool,
    pub name: Seq<char>,
    pub cover_url: Seq<char>,
    pub url: Seq<char>,
    pub last_updated: Option<i64>,
    pub status: Seq<char>,
    pub description: Seq<char>,
    pub last_watch_time: Option<i64>,
    pub public_id: Seq<char>,
    pub is_old: bool,
    pub source: SourceV,
    pub titles: Seq<Seq<char>>,
    pub authors: Seq<Seq<char>>,
    pub artists: Seq<Seq<char>>,
    pub genres: Seq<GenreV>,
    pub chapters: Seq<ChapterV>,
}

/// The process-wide reference cache: the registered sources and the full
/// genre table, built once per run and read-only thereafter.
pub struct Context {
    pub sources: Vec<Source>,
    pub genres: Vec<Genre>,
}

/// Mathematical view of a [`Context`].
#[verifier::ext_equal]
pub struct ContextV {
    pub sources: Seq<SourceV>,
    pub genres: Seq<GenreV>,
}

impl View for Genre {
    type V = GenreV;

    open spec fn view(&self) -> GenreV {
        GenreV { id: self.id@, name: self.name@ }
    }
}

impl DeepView for Genre {
    type V = GenreV;

    open spec fn deep_view(&self) -> GenreV {
        self.view()
    }
}

impl View for Source {
    type V = SourceV;

    open spec fn view(&self) -> SourceV {
        SourceV { id: self.id@, name: self.name@, priority: self.priority }
    }
}

impl DeepView for Source {
    type V = SourceV;

    open spec fn deep_view(&self) -> SourceV {
        self.view()
    }
}

impl View for Page {
    type V = PageV;

    open spec fn view(&self) -> PageV {
        PageV {
            id: self.id,
            chapter_id: self.chapter_id@,
            url: self.url@,
            page_number: self.page_number,
        }
    }
}

impl DeepView for Page {
    type V = PageV;

    open spec fn deep_view(&self) -> PageV {
        self.view()
    }
}

impl View for Chapter {
    type V = ChapterV;

    open spec fn view(&self) -> ChapterV {
        ChapterV {
            chapter_id: self.chapter_id@,
            chapter_name: self.chapter_name@,
            chapter_number: self.chapter_number@,
            updated_at: self.updated_at,
            manga_id: self.manga_id@,
            sequence_number: self.sequence_number,
            last_watch_time: self.last_watch_time,
            pages: self.pages.deep_view(),
        }
    }
}

impl DeepView for Chapter {
    type V = ChapterV;

    open spec fn deep_view(&self) -> ChapterV {
        self.view()
    }
}

impl View for Manga {
    type V = MangaV;

    open spec fn view(&self) -> MangaV {
        MangaV {
            id: self.id@,
            linked_id: self.linked_id@,
            is_main: self.is_main,
            is_listed: self.is_listed,
            name: self.name@,
            cover_url: self.cover_url@,
            url: self.url@,
            last_updated: self.last_updated,
            status: self.status@,
            description: self.description@,
            last_watch_time: self.last_watch_time,
            public_id: self.public_id@,
            is_old: self.is_old,
            source: self.source@,
            titles: self.titles.deep_view(),
            authors: self.authors.deep_view(),
            artists: self.artists.deep_view(),
            genres: self.genres.deep_view(),
            chapters: self.chapters.deep_view(),
        }
    }
}

impl DeepView for Manga {
    type V = MangaV;

    open spec fn deep_view(&self) -> MangaV {
        self.view()
    }
}

impl View for Context {
    type V = ContextV;

    open spec fn view(&self) -> ContextV {
        ContextV { sources: self.sources.deep_view(), genres: self.genres.deep_view() }
    }
}

impl DeepView for Context {
    type V = ContextV;

    open spec fn deep_view(&self) -> ContextV {
        self.view()
    }
}

impl Clone for Genre {
    fn clone(&self) -> (res: Self)
        ensures
            res == *self,
    {
        Genre { id: self.id.clone(), name: self.name.clone() }
    }
}

impl Clone for Source {
    fn clone(&self) -> (res: Self)
        ensures
            res == *self,
    {
        Source { id: self.id.clone(), name: self.name.clone(), priority: self.priority }
    }
}

impl Clone for Page {
    fn clone(&self) -> (res: Self)
        ensures
            res == *self,
    {
        Page {
            id: self.id,
            chapter_id: self.chapter_id.clone(),
            url: self.url.clone(),
            page_number: self.page_number,
        }
    }
}

/// Clones a genre list element for element.
pub fn clone_genres(v: &Vec<Genre>) -> (res: Vec<Genre>)
    ensures
        res@ == v@,
{
    let mut res: Vec<Genre> = Vec::new();
    let mut i: usize = 0;
    while i < v.len()
        invariant
            i <= v.len(),
            res@ == v@.subrange(0, i as int),
        decreases v.len() - i,
    {
        res.push(v[i].clone());
        i = i + 1;
        proof {
            assert(res@ =~= v@.subrange(0, i as int));
        }
    }
    proof {
        assert(res@ =~= v@);
    }
    res
}

/// Clones a string list element for element.
pub fn clone_strings(v: &Vec<String>) -> (res: Vec<String>)
    ensures
        res@ == v@,
{
    let mut res: Vec<String> = Vec::new();
    let mut i: usize = 0;
    while i < v.len()
        invariant
            i <= v.len(),
            res@ == v@.subrange(0, i as int),
        decreases v.len() - i,
    {
        res.push(v[i].clone());
        i = i + 1;
        proof {
            assert(res@ =~= v@.subrange(0, i as int));
        }
    }
    proof {
        assert(res@ =~= v@);
    }
    res
}

/// Clones a page list element for element.
pub fn clone_pages(v: &Vec<Page>) -> (res: Vec<Page>)
    ensures
        res@ == v@,
{
    let mut res: Vec<Page> = Vec::new();
    let mut i: usize = 0;
    while i < v.len()
        invariant
            i <= v.len(),
            res@ == v@.subrange(0, i as int),
        decreases v.len() - i,
    {
        res.push(v[i].clone());
        i = i + 1;
        proof {
            assert(res@ =~= v@.subrange(0, i as int));
        }
    }
    proof {
        assert(res@ =~= v@);
    }
    res
}

impl Clone for Chapter {
    fn clone(&self) -> (res: Self)
        ensures
            res@ == self@,
    {
        let res = Chapter {
            chapter_id: self.chapter_id.clone(),
            chapter_name: self.chapter_name.clone(),
            chapter_number: self.chapter_number.clone(),
            updated_at: self.updated_at,
            manga_id: self.manga_id.clone(),
            sequence_number: self.sequence_number,
            last_watch_time: self.last_watch_time,
            pages: clone_pages(&self.pages),
        };
        proof {
            assert(res@ =~= self@);
        }
        res
    }
}

/// Clones a chapter list element for element.
pub fn clone_chapters(v: &Vec<Chapter>) -> (res: Vec<Chapter>)
    ensures
        res.deep_view() == v.deep_view(),
{
    let mut res: Vec<Chapter> = Vec::new();
    let mut i: usize = 0;
    while i < v.len()
        invariant
            i <= v.len(),
            res.len() == i,
            forall|k: int| 0 <= k < i ==> res.deep_view()[k] == v.deep_view()[k],
        decreases v.len() - i,
    {
        res.push(v[i].clone());
        i = i + 1;
        proof {
            assert(forall|k: int|
                0 <= k < i ==> res.deep_view()[k] == #[trigger] v.deep_view()[k]);
        }
    }
    proof {
        assert(res.deep_view() =~= v.deep_view());
    }
    res
}

impl Clone for Manga {
    fn clone(&self) -> (res: Self)
        ensures
            res@ == self@,
    {
        let res = Manga {
            id: self.id.clone(),
            linked_id: self.linked_id.clone(),
            is_main: self.is_main,
            is_listed: self.is_listed,
            name: self.name.clone(),
            cover_url: self.cover_url.clone(),
            url: self.url.clone(),
            last_updated: self.last_updated,
            status: self.status.clone(),
            description: self.description.clone(),
            last_watch_time: self.last_watch_time,
            public_id: self.public_id.clone(),
            is_old: self.is_old,
            source: self.source.clone(),
            titles: clone_strings(&self.titles),
            authors: clone_strings(&self.authors),
            artists: clone_strings(&self.artists),
            genres: clone_genres(&self.genres),
            chapters: clone_chapters(&self.chapters),
        };
        proof {
            assert(res@ =~= self@);
        }
        res
    }
}

impl Manga {
    /// A fresh, empty work owned by the given source, the shape a scraping
    /// adapter starts from.
    pub fn new(sc: &Source) -> (res: Manga)
        ensures
            res.id@ == Seq::<char>::empty(),
            res.linked_id@ == Seq::<char>::empty(),
            res.is_main == false,
            res.is_listed == false,
            res.name@ == Seq::<char>::empty(),
            res.cover_url@ == Seq::<char>::empty(),
            res.url@ == Seq::<char>::empty(),
            res.last_updated == Option::<i64>::None,
            res.status@ == Seq::<char>::empty(),
            res.description@ == Seq::<char>::empty(),
            res.last_watch_time == Option::<i64>::None,
            res.public_id@ == Seq::<char>::empty(),
            res.is_old == false,
            res.source == *sc,
            res.titles@ == Seq::<String>::empty(),
            res.authors@ == Seq::<String>::empty(),
            res.artists@ == Seq::<String>::empty(),
            res.genres@ == Seq::<Genre>::empty(),
            res.chapters@ == Seq::<Chapter>::empty(),
    {
        Manga {
            id: String::new(),
            linked_id: String::new(),
            is_main: false,
            is_listed: false,
            name: String::new(),
            cover_url: String::new(),
            url: String::new(),
            last_updated: None,
            status: String::new(),
            description: String::new(),
            last_watch_time: None,
            public_id: String::new(),
            is_old: false,
            source: sc.clone(),
            titles: Vec::new(),
            authors: Vec::new(),
            artists: Vec::new(),
            genres: Vec::new(),
            chapters: Vec::new(),
        }
    }
}

/// True when the first genre of some name in the cache is the given one:
/// a name lookup in the reference cache resolves to it.
pub open spec fn genre_lookup(genres: Seq<GenreV>, name: Seq<char>, found: GenreV) -> bool {
    exists|i: int|
        0 <= i < genres.len() && genres[i].name == name && genres[i] == found && (forall|j: int|
            0 <= j < i ==> genres[j].name != name)
}

/// True when no genre in the cache has the given name.
pub open spec fn genre_absent(genres: Seq<GenreV>, name: Seq<char>) -> bool {
    forall|i: int| 0 <= i < genres.len() ==> genres[i].name != name
}

/// True when the first source of some name in the cache is the given one.
pub open spec fn source_lookup(sources: Seq<SourceV>, name: Seq<char>, found: SourceV) -> bool {
    exists|i: int|
        0 <= i < sources.len() && sources[i].name == name && sources[i] == found && (forall|j: int|
            0 <= j < i ==> sources[j].name != name)
}

/// True when no source in the cache has the given name.
pub open spec fn source_absent(sources: Seq<SourceV>, name: Seq<char>) -> bool {
    forall|i: int| 0 <= i < sources.len() ==> sources[i].name != name
}

impl Context {
    /// An empty reference cache.
    pub fn new() -> (res: Context)
        ensures
            res@.sources == Seq::<SourceV>::empty(),
            res@.genres == Seq::<GenreV>::empty(),
    {
        let res = Context { sources: Vec::new(), genres: Vec::new() };
        proof {
            assert(res@.sources =~= Seq::<SourceV>::empty());
            assert(res@.genres =~= Seq::<GenreV>::empty());
        }
        res
    }

    /// Looks a genre up by its exact (lowercase-normalized) name; a miss
    /// returns `None` and is not an error.
    pub fn get_genre(&self, name: &String) -> (res: Option<Genre>)
        ensures
            match res {
                Some(g) => genre_lookup(self@.genres, name@, g@),
                None => genre_absent(self@.genres, name@),
            },
    {
        let mut i: usize = 0;
        while i < self.genres.len()
            invariant
                i <= self.genres.len(),
                forall|j: int| 0 <= j < i ==> self@.genres[j].name != name@,
            decreases self.genres.len() - i,
        {
            if self.genres[i].name == *name {
                let g = self.genres[i].clone();
                proof {
                    assert(self@.genres[i as int] == g@);
                    assert(genre_lookup(self@.genres, name@, g@));
                }
                return Some(g);
            }
            i = i + 1;
        }
        None
    }

    /// Looks a source up by its exact name; a miss returns `None`.
    pub fn get_source(&self, name: &String) -> (res: Option<Source>)
        ensures
            match res {
                Some(s) => source_lookup(self@.sources, name@, s@),
                None => source_absent(self@.sources, name@),
            },
    {
        let mut i: usize = 0;
        while i < self.sources.len()
            invariant
                i <= self.sources.len(),
                forall|j: int| 0 <= j < i ==> self@.sources[j].name != name@,
            decreases self.sources.len() - i,
        {
            if self.sources[i].name == *name {
                let s = self.sources[i].clone();
                proof {
                    assert(self@.sources[i as int] == s@);
                    assert(source_lookup(self@.sources, name@, s@));
                }
                return Some(s);
            }
            i = i + 1;
        }
        None
    }
}

} // verus!
