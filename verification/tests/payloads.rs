use fsmonitor::{parse_event, serialize_event, FsEvent};

#[test]
fn created_payload_text() {
    let e = FsEvent::Created { path: "/a/note.md".to_string() };
    assert_eq!(serialize_event(&e), "{\"type\":\"Created\",\"path\":\"/a/note.md\"}");
}

#[test]
fn modified_payload_text() {
    let e = FsEvent::Modified { path: "/a/other.db.json".to_string() };
    assert_eq!(
        serialize_event(&e),
        "{\"type\":\"Modified\",\"path\":\"/a/other.db.json\"}"
    );
}

#[test]
fn deleted_payload_text() {
    let e = FsEvent::Deleted { path: "/a/note.md".to_string() };
    assert_eq!(serialize_event(&e), "{\"type\":\"Deleted\",\"path\":\"/a/note.md\"}");
}

#[test]
fn renamed_payload_text() {
    let e = FsEvent::Renamed {
        old_path: "/a/old.md".to_string(),
        new_path: "/a/new.md".to_string(),
    };
    assert_eq!(
        serialize_event(&e),
        "{\"type\":\"Renamed\",\"old_path\":\"/a/old.md\",\"new_path\":\"/a/new.md\"}"
    );
}

#[test]
fn quotes_and_backslashes_are_escaped() {
    let e = FsEvent::Created { path: "/a/\"b\"\\c.md".to_string() };
    assert_eq!(
        serialize_event(&e),
        "{\"type\":\"Created\",\"path\":\"/a/\\\"b\\\"\\\\c.md\"}"
    );
}

#[test]
fn round_trip_every_variant() {
    let events = vec![
        FsEvent::Created { path: "/a/note.md".to_string() },
        FsEvent::Modified { path: "/a/other.db.json".to_string() },
        FsEvent::Deleted { path: "/a/note.md".to_string() },
        FsEvent::Renamed {
            old_path: "/a/old.md".to_string(),
            new_path: "/a/new.md".to_string(),
        },
    ];
    for e in events {
        assert_eq!(parse_event(&serialize_event(&e)), Some(e));
    }
}

#[test]
fn round_trip_awkward_paths() {
    let paths = [
        "",
        "\"",
        "\\",
        "a\\\"b.md",
        "/sp ace/täst.md",
        "quote\"inside\\and\\\\more.db.json",
        "}{\"type\":\"Deleted\"",
    ];
    for p in paths {
        let e = FsEvent::Created { path: p.to_string() };
        assert_eq!(parse_event(&serialize_event(&e)), Some(e));
        let r = FsEvent::Renamed {
            old_path: p.to_string(),
            new_path: format!("{}x", p),
        };
        assert_eq!(parse_event(&serialize_event(&r)), Some(r));
    }
}

#[test]
fn parse_rejects_other_text() {
    let bad = [
        "",
        "{}",
        "garbage",
        "{\"type\":\"Created\"}",
        "{\"type\":\"Created\",\"path\":\"/a/note.md\"",
        "{\"type\":\"Created\",\"path\":\"/a/note.md\"}}",
        "{\"type\":\"Created\",\"path\":\"/a/note.md\"} ",
        "{\"type\":\"Renamed\",\"old_path\":\"/a\"}",
        "{\"type\":\"Renamed\",\"old_path\":\"/a\",\"new_path\":\"/b\"",
        "{\"type\":\"Removed\",\"path\":\"/a/note.md\"}",
        " {\"type\":\"Created\",\"path\":\"/a/note.md\"}",
    ];
    for s in bad {
        assert_eq!(parse_event(s), None);
    }
}

#[test]
fn payload_is_json_with_the_fixed_fields() {
    let e = FsEvent::Created { path: "/a/\"quoted\"\\note.md".to_string() };
    let v: serde_json::Value = serde_json::from_str(&serialize_event(&e)).unwrap();
    assert_eq!(v.get("type").unwrap().as_str().unwrap(), "Created");
    assert_eq!(v.get("path").unwrap().as_str().unwrap(), "/a/\"quoted\"\\note.md");

    let r = FsEvent::Renamed {
        old_path: "/a/old.md".to_string(),
        new_path: "/a/new.md".to_string(),
    };
    let v: serde_json::Value = serde_json::from_str(&serialize_event(&r)).unwrap();
    assert_eq!(v.get("type").unwrap().as_str().unwrap(), "Renamed");
    assert_eq!(v.get("old_path").unwrap().as_str().unwrap(), "/a/old.md");
    assert_eq!(v.get("new_path").unwrap().as_str().unwrap(), "/a/new.md");
}
