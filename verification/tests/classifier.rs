use fsmonitor::{classify, path_is_relevant, process_all, FsEvent, RawKind, RawNotification};

fn notification(kind: RawKind, paths: &[&str]) -> RawNotification {
    RawNotification {
        kind,
        paths: paths.iter().map(|p| p.to_string()).collect(),
    }
}

#[test]
fn relevant_path_suffixes() {
    assert!(path_is_relevant("/a/note.md"));
    assert!(path_is_relevant("/a/other.db.json"));
    assert!(path_is_relevant(".md"));
    assert!(path_is_relevant(".db.json"));
    assert!(!path_is_relevant("/a/x.txt"));
    assert!(!path_is_relevant("/a/x.json"));
    assert!(!path_is_relevant("/a/xmd"));
    assert!(!path_is_relevant("md"));
    assert!(!path_is_relevant(""));
    assert!(!path_is_relevant("/a/note.md.bak"));
}

#[test]
fn irrelevant_paths_produce_no_event() {
    for kind in [RawKind::Create, RawKind::Modify, RawKind::Remove, RawKind::Other] {
        let n = notification(kind, &["/a/x.txt", "/a/y.json", "/a/z"]);
        assert_eq!(classify(&n), None);
    }
}

#[test]
fn create_emits_exactly_one_created() {
    let n = notification(RawKind::Create, &["/a/note.md"]);
    assert_eq!(
        classify(&n),
        Some(FsEvent::Created { path: "/a/note.md".to_string() })
    );
    let emitted = process_all(&vec![n]);
    assert_eq!(emitted.len(), 1);
}

#[test]
fn modify_uses_first_matching_path_only() {
    // Both paths are relevant, in this order; the first one wins.
    let n = notification(RawKind::Modify, &["/a/note.md", "/a/other.db.json"]);
    assert_eq!(
        classify(&n),
        Some(FsEvent::Modified { path: "/a/note.md".to_string() })
    );
    let emitted = process_all(&vec![n]);
    assert_eq!(emitted.len(), 1);
}

#[test]
fn modify_skips_leading_irrelevant_paths() {
    let n = notification(RawKind::Modify, &["/a/x.txt", "/a/other.db.json"]);
    assert_eq!(
        classify(&n),
        Some(FsEvent::Modified { path: "/a/other.db.json".to_string() })
    );
}

#[test]
fn remove_emits_exactly_one_deleted() {
    let n = notification(RawKind::Remove, &["/a/note.md"]);
    assert_eq!(
        classify(&n),
        Some(FsEvent::Deleted { path: "/a/note.md".to_string() })
    );
    let emitted = process_all(&vec![n]);
    assert_eq!(emitted.len(), 1);
}

#[test]
fn other_kind_emits_nothing() {
    // Access, raw renames and unknown kinds all arrive as Other.
    let n = notification(RawKind::Other, &["/a/note.md"]);
    assert_eq!(classify(&n), None);
}

#[test]
fn empty_path_list_emits_nothing() {
    let n = notification(RawKind::Create, &[]);
    assert_eq!(classify(&n), None);
}

#[test]
fn events_keep_arrival_order() {
    let ns = vec![
        notification(RawKind::Create, &["/a/note.md"]),
        notification(RawKind::Other, &["/a/note.md"]),
        notification(RawKind::Modify, &["/a/x.txt", "/a/other.db.json"]),
        notification(RawKind::Remove, &["/a/note.md"]),
        notification(RawKind::Modify, &["/a/x.txt"]),
    ];
    let emitted = process_all(&ns);
    assert_eq!(
        emitted,
        vec![
            FsEvent::Created { path: "/a/note.md".to_string() },
            FsEvent::Modified { path: "/a/other.db.json".to_string() },
            FsEvent::Deleted { path: "/a/note.md".to_string() },
        ]
    );
}
