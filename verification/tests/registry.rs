use mangaverse_sync::genre::insert_genre;
use mangaverse_sync::source::{
    get_mangadino_source, get_manganelo_source, get_readm_source, get_studygroup_source,
    insert_source_if_not_exists,
};
use mangaverse_sync::store::Store;
use mangaverse_sync::types::{Context, Genre, Source};

#[test]
fn genre_upsert_is_insert_or_ignore() {
    let mut store = Store::new();
    let mut cache: Vec<Genre> = Vec::new();
    let names = vec!["action".to_string(), "romance".to_string(), "action".to_string()];
    insert_genre(&names, &mut store, &mut cache).unwrap();
    assert_eq!(store.genres.len(), 2, "duplicate names collapse");
    let action_id = store.genres[0].id.clone();
    assert_eq!(store.genres[0].name, "action");
    assert_eq!(action_id.len(), 36);

    // a second run keeps the identifiers and returns the full cache
    let mut cache2: Vec<Genre> = Vec::new();
    let more = vec!["action".to_string(), "horror".to_string()];
    insert_genre(&more, &mut store, &mut cache2).unwrap();
    assert_eq!(store.genres.len(), 3);
    assert_eq!(store.genres[0].id, action_id, "pre-existing rows keep their identifier");
    assert_eq!(cache2.len(), 3, "the full reloaded table comes back, not just the new names");
}

#[test]
fn source_registration_is_create_if_absent() {
    let mut store = Store::new();
    let first = insert_source_if_not_exists("somewhere", 4, &mut store).unwrap();
    assert_eq!(first.name, "somewhere");
    assert_eq!(first.priority, 4);
    assert_eq!(store.sources.len(), 1);

    // a second call, even with another priority, returns the stored row:
    // the priority is fixed at creation
    let again = insert_source_if_not_exists("somewhere", 9, &mut store).unwrap();
    assert_eq!(again.id, first.id);
    assert_eq!(again.priority, 4);
    assert_eq!(store.sources.len(), 1);
}

#[test]
fn per_source_registrations_use_their_fixed_priorities() {
    let mut store = Store::new();
    assert_eq!(get_studygroup_source(&mut store).unwrap().priority, 0);
    assert_eq!(get_readm_source(&mut store).unwrap().priority, 1);
    assert_eq!(get_manganelo_source(&mut store).unwrap().priority, 2);
    assert_eq!(get_mangadino_source(&mut store).unwrap().priority, 3);
    assert_eq!(store.sources.len(), 4);
}

#[test]
fn context_lookups_resolve_by_exact_name() {
    let c = Context {
        sources: vec![Source { id: "s1".to_string(), name: "readm".to_string(), priority: 1 }],
        genres: vec![Genre { id: "g1".to_string(), name: "action".to_string() }],
    };
    assert_eq!(c.get_genre(&"action".to_string()).unwrap().id, "g1");
    assert!(c.get_genre(&"Action".to_string()).is_none(), "lookups are exact, not case-folded");
    assert_eq!(c.get_source(&"readm".to_string()).unwrap().priority, 1);
    assert!(c.get_source(&"nowhere".to_string()).is_none());
}
