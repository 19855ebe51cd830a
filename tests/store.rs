use backlog_store::{
    field_text, keep_decoded, same_text, sort_field_name, text_precedes, BacklogItem,
    BacklogStore, CursorRecord, Filter, MemoryBacklogStore, StoreError,
};

fn item(title: &str, category: &str, description: &str) -> BacklogItem {
    BacklogItem::new(title.to_string(), category.to_string(), description.to_string())
}

fn titles(items: &[BacklogItem]) -> Vec<String> {
    items.iter().map(|i| i.title.clone()).collect()
}

fn seeded() -> MemoryBacklogStore {
    MemoryBacklogStore::from_items(vec![
        item("Dune", "book", "desert"),
        item("Portal", "game", "puzzle"),
        item("Alien", "film", "space"),
        item("Celeste", "game", "climb"),
    ])
}

#[test]
fn write_then_read_contains_every_written_item() {
    let mut store = seeded();
    let batch = vec![item("Hades", "game", "roguelike"), item("Emma", "book", "novel")];
    assert!(store.write_items(batch));
    let read = store.get_items(None, None).ok().unwrap();
    assert_eq!(read.len(), 6);
    let names = titles(&read);
    assert!(names.contains(&"Hades".to_string()));
    assert!(names.contains(&"Emma".to_string()));
}

#[test]
fn write_keeps_duplicate_natural_keys() {
    let mut store = MemoryBacklogStore::new();
    assert!(store.write_items(vec![item("Dune", "book", "a"), item("Dune", "book", "b")]));
    assert_eq!(store.len(), 2);
}

#[test]
fn default_read_sorts_by_category() {
    let store = seeded();
    let read = store.get_items(None, None).ok().unwrap();
    let cats: Vec<String> = read.iter().map(|i| i.category.clone()).collect();
    assert_eq!(cats, vec!["book", "film", "game", "game"]);
    // equal categories keep their order in the collection
    assert_eq!(titles(&read), vec!["Dune", "Alien", "Portal", "Celeste"]);
}

#[test]
fn filtered_read_sorted_by_title() {
    let store = seeded();
    let games = Filter::by_category("game".to_string());
    let read = store.get_items(Some(games), Some("title")).ok().unwrap();
    assert_eq!(titles(&read), vec!["Celeste", "Portal"]);
}

#[test]
fn read_sorted_by_description() {
    let store = seeded();
    let read = store.get_items(None, Some("description")).ok().unwrap();
    assert_eq!(titles(&read), vec!["Celeste", "Dune", "Portal", "Alien"]);
}

#[test]
fn unknown_sort_field_keeps_collection_order() {
    let store = seeded();
    let read = store.get_items(None, Some("rating")).ok().unwrap();
    assert_eq!(titles(&read), vec!["Dune", "Portal", "Alien", "Celeste"]);
}

#[test]
fn read_of_empty_store_is_empty() {
    let store = MemoryBacklogStore::new();
    assert_eq!(store.get_items(None, None).ok().unwrap().len(), 0);
}

#[test]
fn delete_then_read_with_same_filter_is_empty() {
    let mut store = seeded();
    assert!(store.delete_items(Filter::by_category("game".to_string())));
    let games = Filter::by_category("game".to_string());
    assert_eq!(store.get_items(Some(games), None).ok().unwrap().len(), 0);
    assert_eq!(titles(&store.get_items(None, None).ok().unwrap()), vec!["Dune", "Alien"]);
}

#[test]
fn delete_with_match_all_filter_empties_store() {
    let mut store = seeded();
    assert!(store.delete_items(Filter::all()));
    assert_eq!(store.len(), 0);
}

#[test]
fn update_replaces_matching_item() {
    let mut store = seeded();
    assert!(store.update_item(&item("Portal", "game", "finished")));
    assert_eq!(store.len(), 4);
    let read = store.get_items(Some(Filter::by_title("Portal".to_string())), None).ok().unwrap();
    assert_eq!(read.len(), 1);
    assert_eq!(read[0].description, "finished");
}

#[test]
fn update_replaces_only_first_duplicate() {
    let mut store = MemoryBacklogStore::from_items(vec![
        item("Dune", "book", "a"),
        item("Dune", "book", "b"),
    ]);
    assert!(store.update_item(&item("Dune", "book", "c")));
    let read = store.get_items(None, None).ok().unwrap();
    let descs: Vec<String> = read.iter().map(|i| i.description.clone()).collect();
    assert_eq!(descs, vec!["c", "b"]);
}

#[test]
fn update_without_match_succeeds_and_adds_nothing() {
    let mut store = seeded();
    // same title, other category: not the natural key of any item
    assert!(store.update_item(&item("Portal", "film", "sequel")));
    assert_eq!(store.get_items(None, None).ok().unwrap().len(), 4);
    let read = store.get_items(Some(Filter::by_title("Portal".to_string())), None).ok().unwrap();
    assert_eq!(read[0].description, "puzzle");
}

#[test]
fn cursor_with_one_undecodable_record_keeps_the_rest() {
    let records = vec![
        CursorRecord::Decoded(item("a", "x", "")),
        CursorRecord::Decoded(item("b", "x", "")),
        CursorRecord::Undecodable,
        CursorRecord::Decoded(item("c", "x", "")),
        CursorRecord::Decoded(item("d", "x", "")),
    ];
    let kept = keep_decoded(&records).ok().unwrap();
    assert_eq!(titles(&kept), vec!["a", "b", "c", "d"]);
}

#[test]
fn cursor_of_undecodable_records_only_is_empty() {
    let records = vec![CursorRecord::Undecodable, CursorRecord::Undecodable];
    assert_eq!(keep_decoded(&records).ok().unwrap().len(), 0);
}

#[test]
fn cursor_failure_fails_the_read_with_its_cause() {
    let records = vec![
        CursorRecord::Decoded(item("a", "x", "")),
        CursorRecord::Failed(StoreError::new("connection reset".to_string())),
        CursorRecord::Decoded(item("b", "x", "")),
        CursorRecord::Failed(StoreError::new("later".to_string())),
    ];
    match keep_decoded(&records) {
        Ok(_) => panic!("a failed cursor must fail the read"),
        Err(e) => assert_eq!(e.cause, "connection reset"),
    }
}

#[test]
fn filter_on_description() {
    let store = seeded();
    let f = Filter { title: None, category: None, description: Some("space".to_string()) };
    assert_eq!(titles(&store.get_items(Some(f), None).ok().unwrap()), vec!["Alien"]);
}

#[test]
fn write_of_empty_batch_succeeds_and_changes_nothing() {
    let mut store = seeded();
    assert!(store.write_items(Vec::new()));
    assert_eq!(titles(&store.get_items(None, Some("title")).ok().unwrap()), vec![
        "Alien", "Celeste", "Dune", "Portal"
    ]);
}

#[test]
fn sort_field_defaults_to_category() {
    assert_eq!(sort_field_name(None), "category");
    assert_eq!(sort_field_name(Some("title")), "title");
}

#[test]
fn field_text_by_name() {
    let x = item("t", "c", "d");
    assert_eq!(field_text(&x, "title"), "t");
    assert_eq!(field_text(&x, "category"), "c");
    assert_eq!(field_text(&x, "description"), "d");
    assert_eq!(field_text(&x, "other"), "");
}

#[test]
fn text_order_is_lexicographic() {
    assert!(text_precedes("abc", "abd"));
    assert!(!text_precedes("abd", "abc"));
    assert!(text_precedes("ab", "abc"));
    assert!(!text_precedes("abc", "ab"));
    assert!(text_precedes("", ""));
    assert!(text_precedes("B", "a"));
    assert!(text_precedes("same", "same"));
}

#[test]
fn same_text_compares_characters() {
    assert!(same_text("title", "title"));
    assert!(!same_text("title", "titles"));
    assert!(!same_text("title", "Title"));
}

#[test]
fn filter_accepts_on_natural_key() {
    let x = item("Dune", "book", "");
    let key = Filter::natural_key(&x);
    assert!(key.accepts(&item("Dune", "book", "other")));
    assert!(!key.accepts(&item("Dune", "film", "")));
    assert!(Filter::all().accepts(&x));
}

#[test]
fn same_key_ignores_description() {
    assert!(item("a", "b", "x").same_key(&item("a", "b", "y")));
    assert!(!item("a", "b", "x").same_key(&item("a", "c", "x")));
}

#[test]
fn duplicate_copies_every_field() {
    let x = item("a", "b", "c");
    let y = x.duplicate();
    assert_eq!((y.title, y.category, y.description), ("a".to_string(), "b".to_string(), "c".to_string()));
}

#[test]
fn store_error_keeps_cause() {
    let e = StoreError::new("connection refused".to_string());
    assert_eq!(e.cause, "connection refused");
}
