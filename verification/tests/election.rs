use mangaverse_sync::manga::update_manga;
use mangaverse_sync::fetch::{get_chapters, get_manga_from_id, get_manga_from_url};
use mangaverse_sync::insert::insert_manga;
use mangaverse_sync::store::Store;
use mangaverse_sync::types::{Chapter, Context, Genre, Manga, Page, Source};

fn mk_source(id: &str, name: &str, priority: i32) -> Source {
    Source { id: id.to_string(), name: name.to_string(), priority }
}

fn mk_page(url: &str, n: i32) -> Page {
    Page { id: 0, chapter_id: String::new(), url: url.to_string(), page_number: n }
}

fn mk_chapter(name: &str, number: &str, seq: i32, urls: &[&str]) -> Chapter {
    Chapter {
        chapter_id: String::new(),
        chapter_name: name.to_string(),
        chapter_number: number.to_string(),
        updated_at: Some(1_000),
        manga_id: String::new(),
        sequence_number: seq,
        last_watch_time: 7,
        pages: urls.iter().enumerate().map(|(i, u)| mk_page(u, i as i32)).collect(),
    }
}

fn mk_manga(url: &str, title: &str, source: &Source, genres: Vec<Genre>) -> Manga {
    let mut m = Manga::new(source);
    m.url = url.to_string();
    m.name = title.to_string();
    m.titles = vec![title.to_string()];
    m.cover_url = format!("{}/cover.png", url);
    m.status = "ONGOING".to_string();
    m.description = "a description".to_string();
    m.last_updated = Some(5_000);
    m.is_listed = true;
    m.authors = vec!["Alice Writer".to_string()];
    m.artists = vec!["Bob Painter".to_string()];
    m.genres = genres;
    m.chapters = vec![
        mk_chapter("intro", "1", 0, &["http://img/1a", "http://img/1b"]),
        mk_chapter("middle", "2", 1, &["http://img/2a"]),
    ];
    m
}

#[test]
fn more_trusted_incoming_takes_main() {
    let mut store = Store::new();
    let src_a = mk_source("src-a", "alpha-source", 2);
    let src_b = mk_source("src-b", "beta-source", 1);

    let mut a = mk_manga("http://a/x", "Shared Title", &src_a, vec![]);
    insert_manga(&mut a, &mut store, 100).unwrap();
    assert!(store.works[0].is_main);
    let linked_before = store.works[0].linked_id.clone();

    let mut b = mk_manga("http://b/x", "Shared Title", &src_b, vec![]);
    insert_manga(&mut b, &mut store, 200).unwrap();

    assert_eq!(store.works.len(), 2);
    assert!(!store.works[0].is_main, "old main must be demoted");
    assert!(store.works[1].is_main, "more trusted incoming becomes main");
    assert_eq!(store.works[1].linked_id, linked_before);
    assert_eq!(b.linked_id, linked_before);
}

#[test]
fn less_trusted_incoming_stays_non_main() {
    let mut store = Store::new();
    let src_a = mk_source("src-a", "alpha-source", 2);
    let src_b = mk_source("src-b", "beta-source", 5);

    let mut a = mk_manga("http://a/x", "Shared Title", &src_a, vec![]);
    insert_manga(&mut a, &mut store, 100).unwrap();
    let linked_before = store.works[0].linked_id.clone();

    let mut b = mk_manga("http://b/x", "Shared Title", &src_b, vec![]);
    insert_manga(&mut b, &mut store, 200).unwrap();

    assert!(store.works[0].is_main, "existing main stays main");
    assert!(!store.works[1].is_main);
    assert_eq!(store.works[1].linked_id, linked_before);
    assert_eq!(b.linked_id, linked_before);
}

#[test]
fn equal_priority_keeps_separate_groups() {
    let mut store = Store::new();
    let src_a = mk_source("src-a", "alpha-source", 2);
    let src_b = mk_source("src-b", "beta-source", 2);

    let mut a = mk_manga("http://a/x", "Shared Title", &src_a, vec![]);
    insert_manga(&mut a, &mut store, 100).unwrap();
    let mut b = mk_manga("http://b/x", "Shared Title", &src_b, vec![]);
    insert_manga(&mut b, &mut store, 200).unwrap();

    assert!(store.works[0].is_main);
    assert!(store.works[1].is_main, "same trust means a different work: both main");
    assert_ne!(store.works[0].linked_id, store.works[1].linked_id);
}

#[test]
fn no_title_match_starts_fresh_group() {
    let mut store = Store::new();
    let src_a = mk_source("src-a", "alpha-source", 2);
    let src_b = mk_source("src-b", "beta-source", 1);

    let mut a = mk_manga("http://a/x", "One Title", &src_a, vec![]);
    insert_manga(&mut a, &mut store, 100).unwrap();
    let mut b = mk_manga("http://b/x", "Another Title", &src_b, vec![]);
    insert_manga(&mut b, &mut store, 200).unwrap();

    assert!(store.works[0].is_main);
    assert!(store.works[1].is_main);
    assert_ne!(store.works[0].linked_id, store.works[1].linked_id);
}

#[test]
fn every_group_has_exactly_one_main_after_many_insertions() {
    let mut store = Store::new();
    let sources = [
        mk_source("s0", "s0", 0),
        mk_source("s1", "s1", 1),
        mk_source("s2", "s2", 2),
    ];
    let mut url_n = 0;
    for round in 0..3 {
        for src in &sources {
            url_n += 1;
            let mut m = mk_manga(
                &format!("http://site{}/work{}", round, url_n),
                "The Same Story",
                src,
                vec![],
            );
            insert_manga(&mut m, &mut store, 100 + url_n).unwrap();
        }
    }
    for w in &store.works {
        let mains = store
            .works
            .iter()
            .filter(|o| o.linked_id == w.linked_id && o.is_main)
            .count();
        assert_eq!(mains, 1, "exactly one main per linked group");
    }
}

#[test]
fn insert_then_fetch_round_trip() {
    let mut store = Store::new();
    let src = mk_source("src-a", "alpha-source", 2);
    let genres = vec![
        Genre { id: "g1".to_string(), name: "action".to_string() },
        Genre { id: "g2".to_string(), name: "sci fi".to_string() },
    ];
    // the genre table and the reference cache both know these genres
    store.genres = genres.clone();
    let c = Context { sources: vec![src.clone()], genres: genres.clone() };

    let mut m = mk_manga("http://a/x", "Round Trip", &src, genres.clone());
    m.titles.push("Alt Name".to_string());
    insert_manga(&mut m, &mut store, 100).unwrap();

    let w = get_manga_from_url("http://a/x", &store, &c).unwrap();
    let mut got_titles = w.titles.clone();
    got_titles.sort();
    assert_eq!(got_titles, vec!["Alt Name".to_string(), "Round Trip".to_string()]);
    assert_eq!(w.authors, vec!["ALICE WRITER".to_string()]);
    assert_eq!(w.artists, vec!["bob painter".to_string()]);
    assert_eq!(
        w.genres.iter().map(|g| g.id.clone()).collect::<Vec<_>>(),
        vec!["g1".to_string(), "g2".to_string()]
    );
    assert_eq!(w.source.name, "alpha-source");
    assert_eq!(w.chapters.len(), 2);
    assert_eq!(w.chapters[0].chapter_name, "intro");
    assert_eq!(w.chapters[0].pages.len(), 2);
    assert_eq!(w.chapters[0].pages[1].url, "http://img/1b");
    assert_eq!(w.chapters[1].sequence_number, 1);

    // fetching by the generated identifier returns the same work
    let w2 = get_manga_from_id(w.id.as_str(), &store, &c).unwrap();
    assert_eq!(w2.url, "http://a/x");
    assert_eq!(w2.name, "Round Trip");
    assert_eq!(w.id.len(), 36, "generated identifiers are hyphenated uuids");

    // the chapters read back in reading order
    let cs = get_chapters(w.id.as_str(), &store).unwrap();
    assert_eq!(cs.len(), 2);
    assert_eq!(cs[0].sequence_number, 0);
    assert_eq!(cs[1].sequence_number, 1);
    assert_eq!(get_chapters("no-such-id", &store).unwrap().len(), 0);
}

#[test]
fn duplicate_url_is_rejected() {
    let mut store = Store::new();
    let src = mk_source("src-a", "alpha-source", 2);
    let mut m1 = mk_manga("http://a/x", "T", &src, vec![]);
    insert_manga(&mut m1, &mut store, 100).unwrap();
    let mut m2 = mk_manga("http://a/x", "T", &src, vec![]);
    let e = insert_manga(&mut m2, &mut store, 200).unwrap_err();
    assert!(matches!(e.err_type, mangaverse_sync::MSErrorType::SQLError));
    assert_eq!(store.works.len(), 1);
}

#[test]
fn update_of_unknown_url_is_rejected() {
    let mut store = Store::new();
    let src = mk_source("src-a", "alpha-source", 2);
    let mut m = mk_manga("http://nowhere/x", "T", &src, vec![]);
    let e = update_manga(&mut m, &mut store, 100).unwrap_err();
    assert!(matches!(e.err_type, mangaverse_sync::MSErrorType::SQLError));
}
