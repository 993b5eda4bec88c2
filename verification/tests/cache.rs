use collection_cache::error::Error;
use collection_cache::snapshot::Snapshot;
use collection_cache::walk::{names_document, select_documents, WalkEntry};
use collection_cache::watcher::{CollectionWatcher, EventKind, WatchAction, WatchEvent, WatchState};

fn ok(path: &str, document: &str) -> (String, Result<String, Error>) {
    (path.to_string(), Ok(document.to_string()))
}

fn malformed(path: &str) -> (String, Result<String, Error>) {
    (
        path.to_string(),
        Err(Error::YamlError { path: path.to_string(), error: "missing field `name`".to_string() }),
    )
}

fn entries_of(watcher: &CollectionWatcher<String>) -> Vec<(String, String)> {
    let snapshot = watcher.read_collection();
    let mut entries = Vec::new();
    for i in 0..snapshot.len() {
        entries.push((snapshot.path_at(i).clone(), snapshot.document_at(i).clone()));
    }
    entries.sort();
    entries
}

#[test]
fn new_watcher_is_empty() {
    let watcher: CollectionWatcher<String> = CollectionWatcher::new("docs".to_string());
    assert_eq!(watcher.directory(), "docs");
    assert_eq!(watcher.read_collection().len(), 0);
    assert!(watcher.read_collection().is_empty());
    assert_eq!(watcher.read_collection().get("docs/a.yml"), None);
}

#[test]
fn rebuild_holds_one_entry_per_document() {
    let mut watcher: CollectionWatcher<String> = CollectionWatcher::new("docs".to_string());
    let walk = vec![
        WalkEntry::Found("docs".to_string()),
        WalkEntry::Found("docs/a.yml".to_string()),
        WalkEntry::Found("docs/notes.txt".to_string()),
        WalkEntry::Unreadable("docs/locked: permission denied".to_string()),
        WalkEntry::Found("docs/sub/b.yml".to_string()),
    ];
    let paths = watcher.all_files(walk);
    assert_eq!(paths, vec!["docs/a.yml".to_string(), "docs/sub/b.yml".to_string()]);
    let loaded = paths.into_iter().map(|p| { let d = format!("document of {}", p); (p, Ok(d)) }).collect();
    let skipped = watcher.update_all_files(loaded);
    assert!(skipped.is_empty());
    assert_eq!(
        entries_of(&watcher),
        vec![
            ("docs/a.yml".to_string(), "document of docs/a.yml".to_string()),
            ("docs/sub/b.yml".to_string(), "document of docs/sub/b.yml".to_string()),
        ]
    );
    let snapshot = watcher.read_collection();
    assert_eq!(snapshot.len(), 2);
    assert!(snapshot.contains_key("docs/a.yml"));
    assert!(!snapshot.contains_key("docs/notes.txt"));
    assert_eq!(snapshot.get("docs/sub/b.yml"), Some(&"document of docs/sub/b.yml".to_string()));
}

#[test]
fn rebuild_twice_gives_the_same_snapshot() {
    let mut watcher: CollectionWatcher<String> = CollectionWatcher::new("docs".to_string());
    watcher.update_all_files(vec![ok("docs/a.yml", "A"), ok("docs/b.yml", "B")]);
    let first = entries_of(&watcher);
    watcher.update_all_files(vec![ok("docs/a.yml", "A"), ok("docs/b.yml", "B")]);
    assert_eq!(entries_of(&watcher), first);
    assert_eq!(first.len(), 2);
}

#[test]
fn removed_file_leaves_the_snapshot() {
    let mut watcher: CollectionWatcher<String> = CollectionWatcher::new("docs".to_string());
    watcher.update_all_files(vec![ok("docs/a.yml", "A"), ok("docs/b.yml", "B")]);
    assert!(watcher.read_collection().contains_key("docs/b.yml"));
    watcher.update_all_files(vec![ok("docs/a.yml", "A")]);
    assert!(!watcher.read_collection().contains_key("docs/b.yml"));
    assert_eq!(entries_of(&watcher), vec![("docs/a.yml".to_string(), "A".to_string())]);
    watcher.update_all_files(vec![ok("docs/a.yml", "A")]);
    assert!(!watcher.read_collection().contains_key("docs/b.yml"));
    assert_eq!(watcher.read_collection().len(), 1);
}

#[test]
fn malformed_file_is_skipped_and_reported() {
    let mut watcher: CollectionWatcher<String> = CollectionWatcher::new("docs".to_string());
    let skipped = watcher.update_all_files(vec![
        ok("docs/a.yml", "A"),
        malformed("docs/bad.yml"),
        ok("docs/b.yml", "B"),
        ok("docs/c.yml", "C"),
    ]);
    assert_eq!(watcher.read_collection().len(), 3);
    assert!(!watcher.read_collection().contains_key("docs/bad.yml"));
    assert_eq!(
        skipped,
        vec![Error::YamlError {
            path: "docs/bad.yml".to_string(),
            error: "missing field `name`".to_string()
        }]
    );
}

#[test]
fn unreadable_file_is_skipped_and_reported() {
    let mut watcher: CollectionWatcher<String> = CollectionWatcher::new("docs".to_string());
    let skipped = watcher.update_all_files(vec![
        ("docs/gone.yml".to_string(), Err(Error::FileReadError("No such file".to_string()))),
        ok("docs/a.yml", "A"),
        malformed("docs/bad.yml"),
    ]);
    assert_eq!(entries_of(&watcher), vec![("docs/a.yml".to_string(), "A".to_string())]);
    assert_eq!(skipped.len(), 2);
    assert_eq!(skipped[0], Error::FileReadError("No such file".to_string()));
    assert!(matches!(skipped[1], Error::YamlError { .. }));
}

#[test]
fn file_that_turns_malformed_loses_its_entry() {
    let mut watcher: CollectionWatcher<String> = CollectionWatcher::new("docs".to_string());
    watcher.update_all_files(vec![ok("docs/a.yml", "A"), ok("docs/b.yml", "B")]);
    watcher.update_all_files(vec![ok("docs/a.yml", "A"), malformed("docs/b.yml")]);
    assert_eq!(entries_of(&watcher), vec![("docs/a.yml".to_string(), "A".to_string())]);
}

#[test]
fn later_load_of_a_path_replaces_the_earlier() {
    let mut watcher: CollectionWatcher<String> = CollectionWatcher::new("docs".to_string());
    watcher.update_all_files(vec![ok("docs/a.yml", "old"), ok("docs/b.yml", "B"), ok("docs/a.yml", "new")]);
    assert_eq!(watcher.read_collection().len(), 2);
    assert_eq!(watcher.read_collection().get("docs/a.yml"), Some(&"new".to_string()));
}

#[test]
fn rebuilt_returns_snapshot_and_errors() {
    let (snapshot, skipped) = Snapshot::rebuilt(vec![malformed("x.yml"), ok("y.yml", "Y")]);
    assert_eq!(snapshot.len(), 1);
    assert_eq!(snapshot.path_at(0), "y.yml");
    assert_eq!(snapshot.document_at(0), "Y");
    assert_eq!(skipped.len(), 1);
}

#[test]
fn snapshot_insert_and_get() {
    let mut snapshot: Snapshot<u32> = Snapshot::new();
    assert!(snapshot.is_empty());
    snapshot.insert("a.yml".to_string(), 1);
    snapshot.insert("b.yml".to_string(), 2);
    snapshot.insert("a.yml".to_string(), 3);
    assert_eq!(snapshot.len(), 2);
    assert!(!snapshot.is_empty());
    assert_eq!(snapshot.get("a.yml"), Some(&3));
    assert_eq!(snapshot.get("b.yml"), Some(&2));
    assert_eq!(snapshot.get("c.yml"), None);
    assert_eq!(snapshot.path_at(0), "a.yml");
    assert_eq!(snapshot.path_at(1), "b.yml");
    assert_eq!(*snapshot.document_at(0), 3);
}

#[test]
fn document_paths_are_recognized_by_their_suffix() {
    assert!(names_document("a.yml"));
    assert!(names_document("docs/pasta.yml"));
    assert!(names_document("docs/archive.tar.yml"));
    assert!(names_document("docs/..yml"));
    assert!(names_document("docs/é.yml"));
    assert!(!names_document(""));
    assert!(!names_document(".yml"));
    assert!(!names_document("docs/.yml"));
    assert!(!names_document("docs/pasta.yaml"));
    assert!(!names_document("docs/pasta.YML"));
    assert!(!names_document("docs/pasta.yml.bak"));
    assert!(!names_document("docs/pastayml"));
    assert!(!names_document("docs/yml"));
    assert!(!names_document("docs/pasta.yml/"));
}

#[test]
fn select_documents_keeps_the_order_of_the_walk() {
    let paths = select_documents(vec![
        WalkEntry::Found("z.yml".to_string()),
        WalkEntry::Unreadable("broken link".to_string()),
        WalkEntry::Found("readme.md".to_string()),
        WalkEntry::Found("a.yml".to_string()),
    ]);
    assert_eq!(paths, vec!["z.yml".to_string(), "a.yml".to_string()]);
    assert_eq!(select_documents(Vec::new()), Vec::<String>::new());
}

#[test]
fn qualifying_events_call_for_a_rebuild() {
    let watcher: CollectionWatcher<String> = CollectionWatcher::new("docs".to_string());
    assert_eq!(watcher.handle(EventKind::Modify), WatchAction::Rebuild);
    assert_eq!(watcher.handle(EventKind::Remove), WatchAction::Rebuild);
    assert_eq!(watcher.handle(EventKind::Access), WatchAction::Rebuild);
    assert_eq!(watcher.handle(EventKind::Create), WatchAction::Wait);
    assert_eq!(watcher.handle(EventKind::Other), WatchAction::Wait);
}

#[test]
fn watch_loads_then_registers_then_watches() {
    let watcher: CollectionWatcher<String> = CollectionWatcher::new("docs".to_string());
    let (state, action) = watcher.watch(WatchState::Created, WatchEvent::Start);
    assert_eq!((state, action), (WatchState::Loading, WatchAction::Rebuild));
    let (state, action) = watcher.watch(state, WatchEvent::Rebuilt);
    assert_eq!(state, WatchState::Registering);
    assert_eq!(action, WatchAction::Register { directory: "docs".to_string(), recursive: true });
    let (state, action) = watcher.watch(state, WatchEvent::Registered);
    assert_eq!((state, action), (WatchState::Watching, WatchAction::Wait));
    let (state, action) = watcher.watch(state, WatchEvent::Changed(EventKind::Modify));
    assert_eq!((state, action), (WatchState::Watching, WatchAction::Rebuild));
    let (state, action) = watcher.watch(state, WatchEvent::Rebuilt);
    assert_eq!((state, action), (WatchState::Watching, WatchAction::Wait));
    let (state, action) = watcher.watch(state, WatchEvent::Changed(EventKind::Create));
    assert_eq!((state, action), (WatchState::Watching, WatchAction::Wait));
}

#[test]
fn burst_of_events_calls_for_one_rebuild_each() {
    let watcher: CollectionWatcher<String> = CollectionWatcher::new("docs".to_string());
    let mut state = WatchState::Watching;
    let mut rebuilds = 0;
    for kind in [EventKind::Modify, EventKind::Modify, EventKind::Remove, EventKind::Other, EventKind::Access] {
        let (next, action) = watcher.watch(state, WatchEvent::Changed(kind));
        state = next;
        if action == WatchAction::Rebuild {
            rebuilds += 1;
        }
    }
    assert_eq!(rebuilds, 4);
    assert_eq!(state, WatchState::Watching);
}

#[test]
fn failed_registration_is_final() {
    let watcher: CollectionWatcher<String> = CollectionWatcher::new("docs".to_string());
    let (state, action) = watcher.watch(
        WatchState::Registering,
        WatchEvent::RegistrationFailed("too many watches".to_string()),
    );
    assert_eq!(state, WatchState::Failed);
    assert_eq!(action, WatchAction::Fail(Error::NotifyError("too many watches".to_string())));
    let (state, action) = watcher.watch(state, WatchEvent::Changed(EventKind::Modify));
    assert_eq!((state, action), (WatchState::Failed, WatchAction::Wait));
    let (state, action) = watcher.watch(state, WatchEvent::Start);
    assert_eq!((state, action), (WatchState::Failed, WatchAction::Wait));
}

#[test]
fn events_out_of_turn_change_nothing() {
    let watcher: CollectionWatcher<String> = CollectionWatcher::new("docs".to_string());
    assert_eq!(
        watcher.watch(WatchState::Created, WatchEvent::Changed(EventKind::Modify)),
        (WatchState::Created, WatchAction::Wait)
    );
    assert_eq!(
        watcher.watch(WatchState::Loading, WatchEvent::Registered),
        (WatchState::Loading, WatchAction::Wait)
    );
    assert_eq!(
        watcher.watch(WatchState::Watching, WatchEvent::Start),
        (WatchState::Watching, WatchAction::Wait)
    );
}
