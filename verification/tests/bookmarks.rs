use trx_client::bookmarks::{
    batch_delete_bookmarks, batch_move_bookmarks, build_bookmark, create_bookmark, delete_bookmark,
    gen_bookmark_id, merge_for_rig, normalize_bookmark_locator, resolve_bookmark_store,
    update_bookmark, Bookmark, BookmarkError, BookmarkInput, BookmarkQuery, BookmarkScope,
    BookmarkStore, BookmarkStoreMap,
};
use trx_client::decoders::{bookmark_decoder_kinds, bookmark_decoder_state, normalize_decoder};

fn input(name: &str, freq_hz: u64, category: Option<&str>) -> BookmarkInput {
    BookmarkInput {
        name: name.to_string(),
        freq_hz,
        mode: "USB".to_string(),
        bandwidth_hz: None,
        locator: None,
        comment: None,
        category: category.map(|c| c.to_string()),
        decoders: None,
    }
}

fn bookmark(id: &str, freq_hz: u64, category: &str) -> Bookmark {
    build_bookmark(id.to_string(), &input(id, freq_hz, Some(category)))
}

fn ids(list: &[Bookmark]) -> Vec<&str> {
    list.iter().map(|b| b.id.as_str()).collect()
}

#[test]
fn locators_are_stored_in_capitals() {
    let stored = |s: &str| normalize_bookmark_locator(Some(s.to_string()));
    assert_eq!(stored(" jo94ab "), Some("JO94AB".to_string()));
    assert_eq!(stored("stra\u{df}e"), Some("STRASSE".to_string()));
    assert_eq!(stored("  "), None);
    assert_eq!(normalize_bookmark_locator(None), None);
}

#[test]
fn new_ids_are_hexadecimal_and_differ() {
    let a = gen_bookmark_id();
    let b = gen_bookmark_id();
    assert_eq!(a.len(), 32);
    assert!(a.chars().all(|c| c.is_ascii_digit() || ('a'..='f').contains(&c)));
    assert_ne!(a, b);
}

#[test]
fn missing_fields_are_empty() {
    let b = build_bookmark("x".to_string(), &input("X", 7_000_000, None));
    assert_eq!(b.comment, "");
    assert_eq!(b.category, "");
    assert!(b.decoders.is_empty());
    assert_eq!(b.locator, None);
}

#[test]
fn two_bookmarks_never_share_a_frequency() {
    let mut store = BookmarkStore::new();
    let a = create_bookmark(&mut store, &input("A", 100, None), "a".to_string()).expect("free");
    assert_eq!(a.id, "a");
    let e = create_bookmark(&mut store, &input("B", 100, None), "b".to_string());
    assert_eq!(e, Err(BookmarkError::Conflict));
    assert_eq!(
        BookmarkError::Conflict.message(),
        "a bookmark for that frequency already exists"
    );
    create_bookmark(&mut store, &input("B", 200, None), "b".to_string()).expect("free");
    // A bookmark may keep its own frequency, but not take another's.
    assert!(update_bookmark(&mut store, "a", &input("A2", 100, None)).is_ok());
    assert_eq!(
        update_bookmark(&mut store, "a", &input("A2", 200, None)),
        Err(BookmarkError::Conflict)
    );
    assert_eq!(
        update_bookmark(&mut store, "zz", &input("Z", 300, None)),
        Err(BookmarkError::NotFound)
    );
    assert_eq!(store.get("a").expect("stored").name, "A2");
    assert!(store.freq_taken(200, Some("a")));
    assert!(!store.freq_taken(200, Some("b")));
}

#[test]
fn bookmarks_are_deleted() {
    let mut store = BookmarkStore::new();
    store.insert(&bookmark("a", 1, ""));
    store.insert(&bookmark("b", 2, ""));
    assert_eq!(delete_bookmark(&mut store, "a"), Ok(()));
    assert_eq!(delete_bookmark(&mut store, "a"), Err(BookmarkError::NotFound));
    assert_eq!(BookmarkError::NotFound.message(), "bookmark not found");
    assert_eq!(BookmarkError::NotFound.status_code(), 404);
    assert_eq!(BookmarkError::Conflict.status_code(), 409);
    let gone = batch_delete_bookmarks(&mut store, &vec!["a".to_string(), "b".to_string()]);
    assert_eq!(gone, 1);
    assert!(store.list().is_empty());
}

#[test]
fn bookmarks_are_moved_between_stores() {
    let mut from = BookmarkStore::new();
    let mut to = BookmarkStore::new();
    from.insert(&bookmark("a", 1, ""));
    from.insert(&bookmark("b", 2, ""));
    let moved = batch_move_bookmarks(
        &mut from,
        &mut to,
        &vec!["a".to_string(), "missing".to_string()],
    );
    assert_eq!(moved, 1);
    assert_eq!(ids(&from.list()), vec!["b"]);
    assert_eq!(ids(&to.list()), vec!["a"]);
}

#[test]
fn the_bookmark_of_a_rig_wins() {
    let mut stores = BookmarkStoreMap::new();
    stores.general.insert(&bookmark("a", 1, "General"));
    stores.general.insert(&bookmark("b", 30, "Band"));
    let mut rig = BookmarkStore::new();
    rig.insert(&bookmark("a", 20, "rig"));
    stores.open_store("hf", rig);
    assert_eq!(stores.get_for_rig("hf", "a").expect("there").freq_hz, 20);
    assert_eq!(stores.get_for_rig("hf", "b").expect("there").freq_hz, 30);
    assert_eq!(stores.get_for_rig("vhf", "a").expect("there").freq_hz, 1);
    assert_eq!(stores.get_for_rig("hf", "zz"), None);
    let merged = merge_for_rig(
        stores.general().list(),
        stores.list_scope(&BookmarkScope::Rig("hf".to_string())),
    );
    assert_eq!(merged.len(), 2);
    assert!(merged.iter().any(|b| b.id == "a" && b.freq_hz == 20));
    assert_eq!(stores.list_for_rig("hf").len(), 2);
}

#[test]
fn listings_are_sorted_by_frequency() {
    let mut stores = BookmarkStoreMap::new();
    stores.general.insert(&bookmark("b", 30, "Band"));
    stores.general.insert(&bookmark("a", 1, "BAND"));
    stores.general.insert(&bookmark("c", 2, "other"));
    let all = stores.list_bookmarks(&BookmarkQuery {
        category: None,
        scope: None,
    });
    let freqs: Vec<u64> = all.iter().map(|b| b.bm.freq_hz).collect();
    assert_eq!(freqs, vec![1, 2, 30]);
    let band = stores.list_bookmarks(&BookmarkQuery {
        category: Some("band".to_string()),
        scope: Some("hf".to_string()),
    });
    let freqs: Vec<u64> = band.iter().map(|b| b.bm.freq_hz).collect();
    assert_eq!(freqs, vec![1, 30]);
    assert_eq!(band[0].scope, "general");
}

#[test]
fn scopes_are_general_or_a_rig() {
    let scope = |s: Option<&str>| resolve_bookmark_store(&s.map(|t| t.to_string()));
    assert!(matches!(scope(None), BookmarkScope::General));
    assert!(matches!(scope(Some("general")), BookmarkScope::General));
    assert!(matches!(scope(Some("")), BookmarkScope::General));
    assert!(matches!(scope(Some("hf")), BookmarkScope::Rig(r) if r == "hf"));
}

#[test]
fn decoders_follow_list_and_mode() {
    assert_eq!(normalize_decoder(" FT8 "), "ft8");
    let state = bookmark_decoder_state("DIG", &vec!["FT8".to_string()]);
    assert!(state.ft8 && !state.aprs && !state.wspr);
    let state = bookmark_decoder_state("PKT", &Vec::new());
    assert!(state.aprs);
    let kinds = bookmark_decoder_kinds("USB", &vec!["wspr".to_string(), "bogus".to_string()]);
    assert_eq!(kinds, vec!["wspr".to_string()]);
}
