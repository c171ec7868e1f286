//! The read side: reassembling a stored work with its relations — the
//! linked group's titles from the shared title table, genre identities
//! resolved through the genre table and the reference cache (a miss is
//! silently dropped), the owning source resolved from the reference cache,
//! and the chapters in reading order.
use vstd::prelude::*;

use crate::store::{
    is_first_with_id, is_first_with_url, no_work_with_id, no_work_with_url, store_wf, Store,
    TitleRow, TitleRowV,
};
use crate::types::{
    clone_chapters, Chapter, ChapterV, Context, Genre, GenreV, Manga, MangaV, Source, SourceV,
};
use crate::{MSError, MSErrorType, Result};

verus! {

/// The titles attached to a linked group, in table order.
pub open spec fn titles_of(titles: Seq<TitleRowV>, linked: Seq<char>) -> Seq<Seq<char>> {
    titles.filter(|t: TitleRowV| t.linked_id == linked).map_values(|t: TitleRowV| t.title)
}

/// The first genre row with this identity, scanning the table in order.
pub open spec fn find_genre_by_id(table: Seq<GenreV>, id: Seq<char>) -> Option<GenreV>
    decreases table.len(),
{
    if table.len() == 0 {
        None
    } else if table[0].id == id {
        Some(table[0])
    } else {
        find_genre_by_id(table.skip(1), id)
    }
}

/// The first genre row with this name, scanning the cache in order.
pub open spec fn find_genre_by_name(table: Seq<GenreV>, name: Seq<char>) -> Option<GenreV>
    decreases table.len(),
{
    if table.len() == 0 {
        None
    } else if table[0].name == name {
        Some(table[0])
    } else {
        find_genre_by_name(table.skip(1), name)
    }
}

/// One stored genre identity resolved to a cache entry: its name is read
/// from the genre table, then looked up in the reference cache. A miss at
/// either step drops the genre (not an error).
pub open spec fn resolve_genre(g: GenreV, table: Seq<GenreV>, cache: Seq<GenreV>) -> Option<
    GenreV,
> {
    match find_genre_by_id(table, g.id) {
        None => None,
        Some(t) => find_genre_by_name(cache, t.name),
    }
}

/// A stored genre list resolved through the table and the cache, keeping
/// order and silently dropping what does not resolve.
pub open spec fn resolved_genres(gs: Seq<GenreV>, table: Seq<GenreV>, cache: Seq<GenreV>) -> Seq<
    GenreV,
>
    decreases gs.len(),
{
    if gs.len() == 0 {
        Seq::<GenreV>::empty()
    } else {
        resolved_genres(gs.drop_last(), table, cache) + (match resolve_genre(
            gs.last(),
            table,
            cache,
        ) {
            Some(r) => seq![r],
            None => Seq::<GenreV>::empty(),
        })
    }
}

/// A source with this identity exists in the reference cache.
pub open spec fn source_id_present(sources: Seq<SourceV>, id: Seq<char>) -> bool {
    exists|i: int| 0 <= i < sources.len() && (#[trigger] sources[i]).id == id
}

/// `found` is the first source of the cache with this identity.
pub open spec fn source_by_id(sources: Seq<SourceV>, id: Seq<char>, found: SourceV) -> bool {
    exists|i: int|
        0 <= i < sources.len() && (#[trigger] sources[i]).id == id && sources[i] == found && (
        forall|j: int| 0 <= j < i ==> sources[j].id != id)
}

/// Every stored work's owning source can be resolved in the reference
/// cache. Unlike a genre lookup, a source miss is fatal to the fetch, so
/// the read side requires resolvability up front.
pub open spec fn context_covers(works: Seq<MangaV>, sources: Seq<SourceV>) -> bool {
    forall|i: int|
        0 <= i < works.len() ==> source_id_present(sources, (#[trigger] works[i]).source.id)
}

/// The assembled work value for one stored row: the row's own fields, the
/// linked group's titles, the resolved genres, and the owning source as
/// the reference cache knows it.
pub open spec fn fetched_entity_of(
    row: MangaV,
    titles: Seq<TitleRowV>,
    genre_table: Seq<GenreV>,
    cv: crate::types::ContextV,
    w: MangaV,
) -> bool {
    &&& w == (MangaV {
        titles: titles_of(titles, row.linked_id),
        genres: resolved_genres(row.genres, genre_table, cv.genres),
        source: w.source,
        ..row
    })
    &&& source_by_id(cv.sources, row.source.id, w.source)
}

/// The assembled work value for the row at index `i`.
pub open spec fn fetched_entity(
    works: Seq<MangaV>,
    titles: Seq<TitleRowV>,
    genre_table: Seq<GenreV>,
    cv: crate::types::ContextV,
    i: int,
    w: MangaV,
) -> bool {
    fetched_entity_of(works[i], titles, genre_table, cv, w)
}

/// The linked group's titles collected from the title table, in order.
fn collect_titles(titles: &Vec<TitleRow>, linked: &String) -> (r: Vec<String>)
    ensures
        r.deep_view() == titles_of(titles.deep_view(), linked@),
{
    let ghost pred = |t: TitleRowV| t.linked_id == linked@;
    let mut r: Vec<String> = Vec::new();
    let mut i: usize = 0;
    while i < titles.len()
        invariant
            i <= titles.len(),
            pred == (|t: TitleRowV| t.linked_id == linked@),
            r.deep_view() == titles.deep_view().subrange(0, i as int).filter(pred).map_values(
                |t: TitleRowV| t.title,
            ),
        decreases titles.len() - i,
    {
        let ghost prefix = titles.deep_view().subrange(0, i as int);
        let ghost rpre = r.deep_view();
        if titles[i].linked_id == *linked {
            r.push(titles[i].title.clone());
            proof {
                assert(r.deep_view() =~= rpre.push(titles.deep_view()[i as int].title));
            }
        }
        i = i + 1;
        proof {
            let next = titles.deep_view().subrange(0, i as int);
            assert(next =~= prefix + seq![titles.deep_view()[i - 1]]);
            Seq::filter_distributes_over_add(prefix, seq![titles.deep_view()[i - 1]], pred);
            reveal_with_fuel(Seq::filter, 2);
            assert(seq![titles.deep_view()[i - 1]].filter(pred) =~= if pred(
                titles.deep_view()[i - 1],
            ) {
                seq![titles.deep_view()[i - 1]]
            } else {
                Seq::<TitleRowV>::empty()
            });
            assert(r.deep_view() =~= next.filter(pred).map_values(|t: TitleRowV| t.title));
        }
    }
    proof {
        assert(titles.deep_view().subrange(0, titles.len() as int) =~= titles.deep_view());
    }
    r
}

fn genre_by_id(table: &Vec<Genre>, id: &String) -> (r: Option<Genre>)
    ensures
        match r {
            Some(g) => find_genre_by_id(table.deep_view(), id@) == Some(g@),
            None => find_genre_by_id(table.deep_view(), id@) is None,
        },
{
    proof {
        assert(table.deep_view().skip(0) =~= table.deep_view());
    }
    let mut i: usize = 0;
    while i < table.len()
        invariant
            i <= table.len(),
            find_genre_by_id(table.deep_view(), id@) == find_genre_by_id(
                table.deep_view().skip(i as int),
                id@,
            ),
        decreases table.len() - i,
    {
        proof {
            assert(table.deep_view().skip(i as int)[0] == table.deep_view()[i as int]);
            assert(table.deep_view().skip(i as int).skip(1) =~= table.deep_view().skip(i + 1));
        }
        if table[i].id == *id {
            let g = table[i].clone();
            proof {
                assert(table.deep_view()[i as int] == g@);
            }
            return Some(g);
        }
        i = i + 1;
    }
    proof {
        assert(table.deep_view().skip(table.len() as int) =~= Seq::<GenreV>::empty());
    }
    None
}

fn genre_by_name(table: &Vec<Genre>, name: &String) -> (r: Option<Genre>)
    ensures
        match r {
            Some(g) => find_genre_by_name(table.deep_view(), name@) == Some(g@),
            None => find_genre_by_name(table.deep_view(), name@) is None,
        },
{
    proof {
        assert(table.deep_view().skip(0) =~= table.deep_view());
    }
    let mut i: usize = 0;
    while i < table.len()
        invariant
            i <= table.len(),
            find_genre_by_name(table.deep_view(), name@) == find_genre_by_name(
                table.deep_view().skip(i as int),
                name@,
            ),
        decreases table.len() - i,
    {
        proof {
            assert(table.deep_view().skip(i as int)[0] == table.deep_view()[i as int]);
            assert(table.deep_view().skip(i as int).skip(1) =~= table.deep_view().skip(i + 1));
        }
        if table[i].name == *name {
            let g = table[i].clone();
            proof {
                assert(table.deep_view()[i as int] == g@);
            }
            return Some(g);
        }
        i = i + 1;
    }
    proof {
        assert(table.deep_view().skip(table.len() as int) =~= Seq::<GenreV>::empty());
    }
    None
}

/// Resolves a stored genre list through the genre table and the reference
/// cache, dropping what does not resolve.
fn resolve_genre_list(gs: &Vec<Genre>, table: &Vec<Genre>, cache: &Vec<Genre>) -> (r: Vec<Genre>)
    ensures
        r.deep_view() == resolved_genres(gs.deep_view(), table.deep_view(), cache.deep_view()),
{
    let mut r: Vec<Genre> = Vec::new();
    let mut i: usize = 0;
    while i < gs.len()
        invariant
            i <= gs.len(),
            r.deep_view() == resolved_genres(
                gs.deep_view().subrange(0, i as int),
                table.deep_view(),
                cache.deep_view(),
            ),
        decreases gs.len() - i,
    {
        let ghost prefix = gs.deep_view().subrange(0, i as int);
        let ghost rpre = r.deep_view();
        match genre_by_id(table, &gs[i].id) {
            Some(t) => {
                match genre_by_name(cache, &t.name) {
                    Some(g) => {
                        let ghost gv = g@;
                        r.push(g);
                        proof {
                            assert(r.deep_view() =~= rpre.push(gv));
                        }
                    },
                    None => {},
                }
            },
            None => {},
        }
        i = i + 1;
        proof {
            let next = gs.deep_view().subrange(0, i as int);
            assert(next.drop_last() =~= prefix);
            assert(next.last() == gs.deep_view()[i - 1]);
            assert(r.deep_view() =~= resolved_genres(next, table.deep_view(), cache.deep_view()));
        }
    }
    proof {
        assert(gs.deep_view().subrange(0, gs.len() as int) =~= gs.deep_view());
    }
    r
}

fn source_from_context(c: &Context, id: &String) -> (r: Option<Source>)
    ensures
        match r {
            Some(s) => source_by_id(c@.sources, id@, s@),
            None => !source_id_present(c@.sources, id@),
        },
{
    let mut i: usize = 0;
    while i < c.sources.len()
        invariant
            i <= c.sources.len(),
            forall|j: int| 0 <= j < i ==> (#[trigger] c@.sources[j]).id != id@,
        decreases c.sources.len() - i,
    {
        if c.sources[i].id == *id {
            let s = c.sources[i].clone();
            proof {
                assert(c@.sources[i as int] == s@);
                assert(source_by_id(c@.sources, id@, s@));
            }
            return Some(s);
        }
        i = i + 1;
    }
    proof {
        if source_id_present(c@.sources, id@) {
            let w = choose|j: int| 0 <= j < c@.sources.len() && (#[trigger] c@.sources[j]).id == id@;
            assert(c@.sources[w].id != id@);
        }
    }
    None
}

/// Assembles the full work value for a stored row: the row's fields, the
/// linked group's titles, the resolved genres and the owning source from
/// the reference cache.
fn populate_relations(row: &Manga, store: &Store, c: &Context) -> (w: Manga)
    requires
        source_id_present(c@.sources, row@.source.id),
    ensures
        fetched_entity_of(row@, store@.titles, store@.genres, c@, w@),
{
    let mut w = row.clone();
    w.titles = collect_titles(&store.titles, &row.linked_id);
    w.genres = resolve_genre_list(&row.genres, &store.genres, &c.genres);
    let src = match source_from_context(c, &row.source.id) {
        Some(s) => s,
        None => vstd::pervasive::unreached(),
    };
    w.source = src;
    proof {
        assert(w@ =~= (MangaV {
            titles: titles_of(store@.titles, row@.linked_id),
            genres: resolved_genres(row@.genres, store@.genres, c@.genres),
            source: w@.source,
            ..row@
        }));
    }
    w
}

/// Fetches the stored work with this canonical URL together with all its
/// relations; absence of the URL is the only error.
pub fn get_manga_from_url(url: &str, store: &Store, c: &Context) -> (r: Result<Manga>)
    requires
        context_covers(store@.works, c@.sources),
    ensures
        no_work_with_url(store@.works, url@) <==> r is Err,
        match r {
            Ok(w) => exists|i: int|
                #[trigger] is_first_with_url(store@.works, url@, i) && fetched_entity(
                    store@.works,
                    store@.titles,
                    store@.genres,
                    c@,
                    i,
                    w@,
                ),
            Err(e) => e.err_type is SQLError,
        },
{
    let key = String::from_str(url);
    match store.find_work_by_url(&key) {
        None => Err(
            MSError {
                message: String::from_str("no stored work with this url"),
                err_type: MSErrorType::SQLError,
            },
        ),
        Some(i) => {
            let row = &store.works[i];
            proof {
                assert(row@ == store@.works[i as int]);
                assert(source_id_present(c@.sources, row@.source.id));
            }
            let w = populate_relations(row, store, c);
            Ok(w)
        },
    }
}

/// Fetches the stored work with this identifier together with all its
/// relations; absence of the identifier is the only error.
pub fn get_manga_from_id(id: &str, store: &Store, c: &Context) -> (r: Result<Manga>)
    requires
        context_covers(store@.works, c@.sources),
    ensures
        no_work_with_id(store@.works, id@) <==> r is Err,
        match r {
            Ok(w) => exists|i: int|
                #[trigger] is_first_with_id(store@.works, id@, i) && fetched_entity(
                    store@.works,
                    store@.titles,
                    store@.genres,
                    c@,
                    i,
                    w@,
                ),
            Err(e) => e.err_type is SQLError,
        },
{
    let key = String::from_str(id);
    match store.find_work_by_id(&key) {
        None => Err(
            MSError {
                message: String::from_str("no stored work with this id"),
                err_type: MSErrorType::SQLError,
            },
        ),
        Some(i) => {
            let row = &store.works[i];
            proof {
                assert(row@ == store@.works[i as int]);
                assert(source_id_present(c@.sources, row@.source.id));
            }
            let w = populate_relations(row, store, c);
            Ok(w)
        },
    }
}

/// The chapters of the work with this identifier, in reading order
/// (`sequence_number` ascending, which the store invariant makes the list
/// order); a work without a row has no chapters.
pub fn get_chapters(id: &str, store: &Store) -> (r: Result<Vec<Chapter>>)
    requires
        store_wf(store@),
    ensures
        r is Ok,
        match r {
            Ok(cs) => {
                &&& (no_work_with_id(store@.works, id@) ==> cs.deep_view() == Seq::<
                    ChapterV,
                >::empty())
                &&& forall|i: int|
                    #[trigger] is_first_with_id(store@.works, id@, i) ==> cs.deep_view()
                        == store@.works[i].chapters
                &&& forall|k: int|
                    0 <= k < cs.deep_view().len() ==> (#[trigger] cs.deep_view()[k]).sequence_number
                        == k
            },
            Err(_) => false,
        },
{
    let key = String::from_str(id);
    match store.find_work_by_id(&key) {
        None => {
            let empty: Vec<Chapter> = Vec::new();
            proof {
                assert(empty.deep_view() =~= Seq::<ChapterV>::empty());
            }
            Ok(empty)
        },
        Some(i) => {
            let cs = clone_chapters(&store.works[i].chapters);
            proof {
                assert(cs.deep_view() == store@.works[i as int].chapters);
                assert(crate::store::chapters_wf(store@.works[i as int]));
                assert forall|j: int|
                    #[trigger] is_first_with_id(store@.works, id@, j) implies cs.deep_view()
                    == store@.works[j].chapters by {
                    assert(j == i as int);
                }
            }
            Ok(cs)
        },
    }
}

} // verus!
