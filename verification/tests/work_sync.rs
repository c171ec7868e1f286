use mangaverse_sync::chapter::{
    add_extra_chaps, delete_extra_chaps, reverse_and_renumber, update_chapter,
};
use mangaverse_sync::insert::insert_manga;
use mangaverse_sync::manga::update_manga;
use mangaverse_sync::store::Store;
use mangaverse_sync::types::{Chapter, Genre, Manga, Page, Source};

fn mk_source(id: &str, name: &str, priority: i32) -> Source {
    Source { id: id.to_string(), name: name.to_string(), priority }
}

fn mk_page(url: &str, n: i32) -> Page {
    Page { id: 0, chapter_id: String::new(), url: url.to_string(), page_number: n }
}

fn mk_chapter(name: &str, number: &str, seq: i32, urls: &[&str]) -> Chapter {
    Chapter {
        chapter_id: String::new(),
        chapter_name: name.to_string(),
        chapter_number: number.to_string(),
        updated_at: Some(1_000),
        manga_id: String::new(),
        sequence_number: seq,
        last_watch_time: 7,
        pages: urls.iter().enumerate().map(|(i, u)| mk_page(u, i as i32)).collect(),
    }
}

fn mk_manga_n(url: &str, title: &str, source: &Source, nchapters: usize) -> Manga {
    let mut m = Manga::new(source);
    m.url = url.to_string();
    m.name = title.to_string();
    m.titles = vec![title.to_string()];
    m.cover_url = "http://c/cover.png".to_string();
    m.status = "ONGOING".to_string();
    m.description = "a description".to_string();
    m.last_updated = Some(5_000);
    m.is_listed = true;
    m.chapters = (0..nchapters)
        .map(|k| {
            let u = format!("http://img/{}", k);
            mk_chapter(&format!("chapter {}", k), &format!("{}", k), k as i32, &[u.as_str()])
        })
        .collect();
    m
}

#[test]
fn identical_scrape_only_stamps_watch_time() {
    let mut store = Store::new();
    let src = mk_source("s", "src", 1);
    let mut m = mk_manga_n("http://a/x", "T", &src, 3);
    insert_manga(&mut m, &mut store, 100).unwrap();
    let before = store.works[0].clone();

    let mut fresh = mk_manga_n("http://a/x", "T", &src, 3);
    let rep = update_manga(&mut fresh, &mut store, 999).unwrap();

    assert!(!rep.metadata_updated);
    assert!(!rep.listing_updated);
    assert!(!rep.genres_rewritten);
    assert!(!rep.chapters_meta_updated);
    assert!(!rep.pages_replaced);
    assert_eq!(rep.chapters_added, 0);
    assert_eq!(rep.chapters_deleted, 0);
    let after = &store.works[0];
    assert_eq!(after.last_watch_time, Some(999));
    assert_eq!(after.name, before.name);
    assert_eq!(after.chapters.len(), before.chapters.len());
    for (a, b) in after.chapters.iter().zip(before.chapters.iter()) {
        assert_eq!(a.chapter_id, b.chapter_id);
        assert_eq!(a.pages.len(), b.pages.len());
    }
}

#[test]
fn chapter_growth_appends_with_fresh_identifiers() {
    let mut store = Store::new();
    let src = mk_source("s", "src", 1);
    let mut m = mk_manga_n("http://a/x", "T", &src, 10);
    insert_manga(&mut m, &mut store, 100).unwrap();
    let old_ids: Vec<String> =
        store.works[0].chapters.iter().map(|c| c.chapter_id.clone()).collect();

    let mut fresh = mk_manga_n("http://a/x", "T", &src, 12);
    let rep = update_manga(&mut fresh, &mut store, 200).unwrap();

    assert_eq!(rep.chapters_added, 2);
    assert_eq!(rep.chapters_deleted, 0);
    let row = &store.works[0];
    assert_eq!(row.chapters.len(), 12);
    assert_eq!(row.chapters[10].sequence_number, 10);
    assert_eq!(row.chapters[11].sequence_number, 11);
    // the first ten stay untouched (nothing differed)
    for k in 0..10 {
        assert_eq!(row.chapters[k].chapter_id, old_ids[k]);
        assert_eq!(row.chapters[k].chapter_name, format!("chapter {}", k));
    }
    // the appended two carry fresh identifiers and the work's identifier
    for k in 10..12 {
        assert_eq!(row.chapters[k].chapter_id.len(), 36);
        assert!(!old_ids.contains(&row.chapters[k].chapter_id));
        assert_eq!(row.chapters[k].manga_id, row.id);
        assert_eq!(row.chapters[k].pages.len(), 1);
        assert_eq!(row.chapters[k].pages[0].chapter_id, row.chapters[k].chapter_id);
    }
    // the fresh work value got the generated identifiers written back
    assert_eq!(fresh.chapters[10].chapter_id, row.chapters[10].chapter_id);
    assert_eq!(fresh.chapters[11].manga_id, row.id);
}

#[test]
fn chapter_shrink_deletes_the_tail() {
    let mut store = Store::new();
    let src = mk_source("s", "src", 1);
    let mut m = mk_manga_n("http://a/x", "T", &src, 10);
    insert_manga(&mut m, &mut store, 100).unwrap();
    let old_ids: Vec<String> =
        store.works[0].chapters.iter().map(|c| c.chapter_id.clone()).collect();

    let mut fresh = mk_manga_n("http://a/x", "T", &src, 7);
    let rep = update_manga(&mut fresh, &mut store, 200).unwrap();

    assert_eq!(rep.chapters_added, 0);
    assert_eq!(rep.chapters_deleted, 3);
    let row = &store.works[0];
    assert_eq!(row.chapters.len(), 7);
    for k in 0..7 {
        assert_eq!(row.chapters[k].chapter_id, old_ids[k]);
        assert_eq!(row.chapters[k].sequence_number, k as i32);
    }
}

#[test]
fn changed_page_url_replaces_the_page_list_wholesale() {
    let mut store = Store::new();
    let src = mk_source("s", "src", 1);
    let mut m = mk_manga_n("http://a/x", "T", &src, 1);
    m.chapters[0].pages = vec![mk_page("http://img/old0", 0), mk_page("http://img/old1", 1)];
    insert_manga(&mut m, &mut store, 100).unwrap();
    let chap_id = store.works[0].chapters[0].chapter_id.clone();

    let mut fresh = mk_manga_n("http://a/x", "T", &src, 1);
    fresh.chapters[0].pages = vec![
        mk_page("http://img/new0", 0),
        mk_page("http://img/old1", 1),
        mk_page("http://img/new2", 2),
    ];
    let rep = update_manga(&mut fresh, &mut store, 200).unwrap();

    assert!(rep.pages_replaced);
    let pages = &store.works[0].chapters[0].pages;
    assert_eq!(pages.len(), 3);
    assert_eq!(pages[0].url, "http://img/new0");
    assert_eq!(pages[1].url, "http://img/old1");
    assert_eq!(pages[2].url, "http://img/new2");
    for p in pages {
        assert_eq!(p.chapter_id, chap_id, "replaced pages keep the stored chapter's identifier");
    }
}

#[test]
fn longer_page_list_with_equal_overlap_is_not_replaced() {
    // only the zipped prefix is compared: a fresh list that merely grows
    // does not count as changed and is not stored
    let mut store = Store::new();
    let src = mk_source("s", "src", 1);
    let mut m = mk_manga_n("http://a/x", "T", &src, 1);
    m.chapters[0].pages = vec![mk_page("http://img/p0", 0), mk_page("http://img/p1", 1)];
    insert_manga(&mut m, &mut store, 100).unwrap();

    let mut fresh = mk_manga_n("http://a/x", "T", &src, 1);
    fresh.chapters[0].pages = vec![
        mk_page("http://img/p0", 0),
        mk_page("http://img/p1", 1),
        mk_page("http://img/p2", 2),
    ];
    let rep = update_manga(&mut fresh, &mut store, 200).unwrap();

    assert!(!rep.pages_replaced);
    assert_eq!(store.works[0].chapters[0].pages.len(), 2);
}

#[test]
fn chapter_metadata_update_keeps_identifier() {
    let mut ori = mk_chapter("old name", "1", 0, &["http://img/a"]);
    ori.chapter_id = "stable-id".to_string();
    let lat = mk_chapter("new name", "1", 0, &["http://img/a"]);
    let upd = update_chapter(&mut ori, &lat);
    assert!(upd.metadata_updated);
    assert!(!upd.pages_replaced);
    assert_eq!(ori.chapter_name, "new name");
    assert_eq!(ori.chapter_id, "stable-id");
}

#[test]
fn add_and_delete_extra_chaps_directly() {
    let mut stored: Vec<Chapter> = Vec::new();
    let mut c0 = mk_chapter("zero", "0", 0, &["http://img/z"]);
    c0.chapter_id = "id-0".to_string();
    let mut c1 = mk_chapter("one", "1", 1, &["http://img/o"]);
    c1.chapter_id = "id-1".to_string();
    add_extra_chaps(&mut stored, &vec![c0, c1]);
    assert_eq!(stored.len(), 2);
    assert_eq!(stored[0].pages[0].chapter_id, "id-0", "pages are bound to their chapter");

    delete_extra_chaps(&mut stored, &vec!["id-1".to_string()]);
    assert_eq!(stored.len(), 1);
    assert_eq!(stored[0].chapter_id, "id-0");
}

#[test]
fn reverse_and_renumber_turns_site_order_into_reading_order() {
    // adapters scrape newest-first: position 0 is the latest chapter
    let mut chapters = vec![
        mk_chapter("latest", "3", 0, &[]),
        mk_chapter("older", "2", 1, &[]),
        mk_chapter("first", "1", 2, &[]),
    ];
    reverse_and_renumber(&mut chapters);
    assert_eq!(chapters[0].chapter_name, "first");
    assert_eq!(chapters[0].sequence_number, 0);
    assert_eq!(chapters[1].chapter_name, "older");
    assert_eq!(chapters[1].sequence_number, 1);
    assert_eq!(chapters[2].chapter_name, "latest");
    assert_eq!(chapters[2].sequence_number, 2);
}

#[test]
fn metadata_change_updates_all_fields_together() {
    let mut store = Store::new();
    let src = mk_source("s", "src", 1);
    let mut m = mk_manga_n("http://a/x", "T", &src, 1);
    insert_manga(&mut m, &mut store, 100).unwrap();

    let mut fresh = mk_manga_n("http://a/x", "T2", &src, 1);
    fresh.status = "COMPLETED".to_string();
    let rep = update_manga(&mut fresh, &mut store, 200).unwrap();
    assert!(rep.metadata_updated);
    assert!(rep.listing_updated);
    let row = &store.works[0];
    assert_eq!(row.name, "T2");
    assert_eq!(row.status, "COMPLETED");
    assert_eq!(store.listings[0].name, "T2");
}

#[test]
fn genre_set_change_rewrites_the_relation() {
    let g1 = Genre { id: "g1".to_string(), name: "action".to_string() };
    let g2 = Genre { id: "g2".to_string(), name: "sci fi".to_string() };
    let mut store = Store::new();
    let src = mk_source("s", "src", 1);
    let mut m = mk_manga_n("http://a/x", "T", &src, 1);
    m.genres = vec![g1.clone()];
    insert_manga(&mut m, &mut store, 100).unwrap();
    assert_eq!(store.listings[0].genres, "Action");

    // the same set in any order is no change
    let mut same = mk_manga_n("http://a/x", "T", &src, 1);
    same.genres = vec![g1.clone()];
    let rep = update_manga(&mut same, &mut store, 150).unwrap();
    assert!(!rep.genres_rewritten);

    let mut fresh = mk_manga_n("http://a/x", "T", &src, 1);
    fresh.genres = vec![g2.clone(), g1.clone()];
    let rep = update_manga(&mut fresh, &mut store, 200).unwrap();
    assert!(rep.genres_rewritten);
    assert!(rep.listing_updated);
    let row = &store.works[0];
    assert_eq!(row.genres.len(), 2);
    assert_eq!(store.listings[0].genres, "Sci Fi, Action");
}

#[test]
fn listing_description_is_truncated_to_255_characters() {
    let mut store = Store::new();
    let src = mk_source("s", "src", 1);
    let mut m = mk_manga_n("http://a/x", "T", &src, 0);
    m.description = "d".repeat(300);
    insert_manga(&mut m, &mut store, 100).unwrap();
    assert_eq!(store.listings[0].description_small.chars().count(), 255);

    let mut store2 = Store::new();
    let mut m2 = mk_manga_n("http://a/y", "T2", &src, 0);
    m2.description = "short".to_string();
    insert_manga(&mut m2, &mut store2, 100).unwrap();
    assert_eq!(store2.listings[0].description_small, "short");
}
