use library::book_cache::{WarmPins, DEFAULT_CACHE_CAPACITY};
use library::book_files::{
    group_translations, is_stale, is_summaries_conflict, is_translation_file, may_commit, needs_merge,
    temp_file_name, translation_file_name, TranslationFile,
};
use library::book_state::{is_state_file_name, merge_user_states, needs_rewrite, BookReadingState, BookUserState};
use library::watch::{classify_event, classify_path, distinct_changes, same_change, FileChange, PathFacts};
use library::trace_names::{
    is_book_conflict_filename, is_canonical_translation_filename, is_state_conflict_filename,
    is_translation_conflict_filename, trace_folder_label, trace_reading_label, TraceArg,
};

fn state(reading: Option<(usize, usize)>, folder: &[&str]) -> BookUserState {
    BookUserState {
        reading_state: reading.map(|(c, p)| BookReadingState { chapter_id: c, paragraph_id: p, page_offset: 0 }),
        folder_path: folder.iter().map(|s| s.to_string()).collect(),
    }
}

#[test]
fn merge_keeps_folder_and_reading_from_different_siblings() {
    let older = state(Some((1, 2)), &["Fiction"]);
    let newer = state(Some((3, 4)), &[]);
    let merged = merge_user_states(&vec![(older, 10), (newer, 20)]);
    assert_eq!(merged.reading_state.unwrap().chapter_id, 3);
    assert_eq!(merged.folder_path, vec!["Fiction".to_string()]);
    let merged = merge_user_states(&vec![]);
    assert!(merged.reading_state.is_none() && merged.folder_path.is_empty());
}

#[test]
fn state_file_names() {
    assert!(is_state_file_name("state.json"));
    assert!(is_state_file_name("state.sync-conflict-1.json"));
    assert!(!is_state_file_name("state.json~tmp"));
    assert!(!needs_rewrite(&vec!["state.json".to_string()]));
    assert!(needs_rewrite(&vec!["state.sync-conflict-1.json".to_string()]));
    assert!(needs_rewrite(&vec!["state.json".to_string(), "state.x.json".to_string()]));
}

#[test]
fn save_protocol_decisions() {
    assert!(needs_merge(None, Some(5)));
    assert!(!needs_merge(None, None));
    assert!(needs_merge(Some(4), Some(5)));
    assert!(!needs_merge(Some(5), Some(5)));
    assert!(!needs_merge(Some(5), None));
    assert!(may_commit(None, Some(9)));
    assert!(may_commit(Some(3), Some(3)));
    assert!(!may_commit(Some(3), Some(4)));
    assert!(!may_commit(Some(3), None));
    assert!(is_stale(None, 1));
    assert!(is_stale(Some(1), 2));
    assert!(!is_stale(Some(2), 2));
    assert_eq!(translation_file_name("eng", "rus"), "translation_eng_rus.dat");
    assert_eq!(temp_file_name("book.dat", "abc"), "book.dat~abc");
    assert!(is_translation_file("translation_eng_rus.dat"));
    assert!(is_summaries_conflict("chapter_summaries~x.dat"));
    assert!(!is_summaries_conflict("chapter_summaries.dat"));
}

fn tf(path: &str, id: u128, count: usize) -> TranslationFile {
    TranslationFile {
        path: path.into(),
        id,
        source_language: "eng".into(),
        target_language: "rus".into(),
        translated_paragraphs_count: count,
    }
}

#[test]
fn list_books_conflicting_translation_versions() {
    let files = vec![
        tf("/b/translation_eng_rus.sync-conflict-1.dat", 7, 3),
        tf("/b/translation_eng_deu.dat", 2, 1),
        tf("/b/translation_eng_rus.dat", 7, 5),
    ];
    let groups = group_translations(&files);
    assert_eq!(groups.len(), 2);
    assert_eq!(groups[0].id, 2);
    assert_eq!(groups[1].id, 7);
    assert_eq!(groups[1].main_path, "/b/translation_eng_rus.dat");
    assert_eq!(groups[1].translated_paragraphs_count, 5);
    assert_eq!(groups[1].conflicting_paths, vec!["/b/translation_eng_rus.sync-conflict-1.dat".to_string()]);
    assert!(groups[0].conflicting_paths.is_empty());
}

#[test]
fn trace_file_classes() {
    assert!(is_canonical_translation_filename("translation_eng_rus.dat"));
    assert!(!is_canonical_translation_filename("translation_eng_rus.sync-conflict-1.dat"));
    assert!(!is_canonical_translation_filename("translation_eng_rus_x.dat"));
    assert!(is_translation_conflict_filename("translation_eng_rus.sync-conflict-1.dat"));
    assert!(!is_translation_conflict_filename("translation_eng_rus.dat"));
    assert!(is_book_conflict_filename("book.sync-conflict-1.dat"));
    assert!(!is_book_conflict_filename("book.dat"));
    assert!(is_state_conflict_filename("state~1.json"));
    assert!(!is_state_conflict_filename("state.json"));
    assert_eq!(trace_reading_label(Some((3, 14))), "3:14");
    assert_eq!(trace_reading_label(None), "nil");
    assert_eq!(trace_folder_label(&vec![]), "nil");
    assert_eq!(trace_folder_label(&vec!["a".to_string(), "b".to_string()]), "a/b");
}

#[test]
fn state_copies_ordered_oldest_first() {
    let files = vec![("b".to_string(), 20u128), ("a".to_string(), 10), ("c".to_string(), 20), ("d".to_string(), 5)];
    let ordered = library::book_state::oldest_first(files);
    let names: Vec<&str> = ordered.iter().map(|f| f.0.as_str()).collect();
    assert_eq!(names, vec!["d", "a", "b", "c"]);
}

fn facts(name: &str, parent: Option<&str>, grand: Option<&str>) -> PathFacts {
    PathFacts {
        file_name: Some(name.to_string()),
        parent_name: parent.map(str::to_string),
        grandparent_name: grand.map(str::to_string),
        modified: Some(7),
    }
}

const BOOK_UUID: &str = "67e55044-10b1-426f-9247-bb680e5fe0c8";

#[test]
fn watcher_classifies_card_translation_and_book_files() {
    let card = classify_event(true, &vec![facts("hola_noun.json", Some("spa-rus"), Some("cards"))]);
    assert_eq!(
        card,
        Some(FileChange::CardChanged {
            modified: 7,
            from: "spa".to_string(),
            to: "rus".to_string(),
            lemma_slug: "hola_noun".to_string()
        })
    );
    let tr = classify_event(true, &vec![facts("translation_spa_rus.dat", Some(BOOK_UUID), Some("lib"))]);
    assert_eq!(
        tr,
        Some(FileChange::TranslationChanged {
            modified: 7,
            from: "spa".to_string(),
            to: "rus".to_string(),
            uuid: BOOK_UUID.to_string()
        })
    );
    let upper = classify_event(true, &vec![facts("book.dat", Some("67E55044-10B1-426F-9247-BB680E5FE0C8"), None)]);
    assert_eq!(upper, Some(FileChange::BookChanged { modified: 7, uuid: BOOK_UUID.to_string() }));
}

#[test]
fn watcher_skips_temp_conflict_and_unknown_files() {
    assert_eq!(classify_event(true, &vec![facts("hola_noun.json~TEST1234", Some("spa-rus"), Some("cards"))]), None);
    assert_eq!(
        classify_event(true, &vec![facts("hola_noun.sync-conflict-20260101-abc.json", Some("spa-rus"), Some("cards"))]),
        None
    );
    assert_eq!(classify_event(true, &vec![facts("notes.txt", Some("x"), Some("y"))]), None);
    assert_eq!(classify_event(false, &vec![facts("book.dat", Some(BOOK_UUID), None)]), None);
    // A later path decides once earlier ones are skipped.
    let both = vec![facts("notes.txt", Some("x"), Some("y")), facts("book_conflict.dat", Some(BOOK_UUID), None)];
    assert_eq!(classify_event(true, &both), Some(FileChange::BookChanged { modified: 7, uuid: BOOK_UUID.to_string() }));
    // An unparseable id gives up on the whole event.
    let bad = vec![facts("book.dat", Some("not-a-uuid"), None), facts("book.dat", Some(BOOK_UUID), None)];
    assert_eq!(classify_event(true, &bad), None);
    // Unknown languages give up; a deck outside `cards` is skipped.
    assert_eq!(classify_event(true, &vec![facts("translation_xx_rus.dat", Some(BOOK_UUID), None)]), None);
    assert_eq!(classify_event(true, &vec![facts("a.json", Some("spa-rus"), Some("decks"))]), None);
    // Translation names keep only the first three letters of each code.
    let long = classify_event(true, &vec![facts("translation_spanish_russian_x.dat", Some(BOOK_UUID), None)]);
    assert_eq!(
        long,
        Some(FileChange::TranslationChanged {
            modified: 7,
            from: "spa".to_string(),
            to: "rus".to_string(),
            uuid: BOOK_UUID.to_string()
        })
    );
    // Without a second code part the name is skipped, not given up on.
    assert_eq!(classify_path(&facts("translation_spa.dat", Some(BOOK_UUID), None)), None);
    assert_eq!(classify_path(&facts("book.dat", None, None)), Some(None));
}

#[test]
fn watcher_batches_are_deduplicated_in_order() {
    let a = FileChange::BookChanged { modified: 1, uuid: BOOK_UUID.to_string() };
    let b = FileChange::CardChanged { modified: 2, from: "spa".into(), to: "rus".into(), lemma_slug: "x".into() };
    let out = distinct_changes(vec![a.clone(), b.clone(), a.clone(), b.clone()]);
    assert_eq!(out, vec![a.clone(), b.clone()]);
    assert!(same_change(&a, &a.clone()));
    assert!(!same_change(&a, &b));
}

#[test]
fn trace_args_carry_position_or_folder() {
    let r = TraceArg::reading_position(3, 14);
    assert_eq!(r.reading.as_deref(), Some("3:14"));
    assert!(r.folder.is_none());
    let f = TraceArg::folder_path(&vec!["Fiction".to_string(), "Russian".to_string()]);
    assert_eq!(f.folder.as_deref(), Some("Fiction/Russian"));
    assert!(f.reading.is_none());
    assert_eq!(TraceArg::folder_path(&Vec::new()).folder.as_deref(), Some(""));
    let d = TraceArg::default();
    assert!(d.reading.is_none() && d.folder.is_none());
}

#[test]
fn warm_pins_never_exceed_capacity() {
    let capacity = 3;
    let mut pins: WarmPins<String> = WarmPins::new(capacity);
    for i in 0..(capacity + 3) {
        pins.insert(i as u128, format!("Book {i}"));
    }
    assert_eq!(pins.len(), capacity, "warm LRU must not exceed capacity");
    assert!(!pins.contains(0) && !pins.contains(2));
    assert!(pins.contains(3) && pins.contains(5));
    pins.remove(4);
    assert_eq!(pins.len(), 2);
    assert!(!pins.contains(4));
    let mut zero: WarmPins<u8> = WarmPins::new(0);
    zero.insert(1, 1);
    zero.insert(2, 2);
    assert_eq!(zero.len(), 1);
    assert!(zero.contains(2));
    assert_eq!(DEFAULT_CACHE_CAPACITY, 8);
}
