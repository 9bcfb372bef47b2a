use stik::storage::{
    bridge_request, current_mode, dir_entry_from_fields, icloud_available, icloud_container_path_from,
    icloud_dir_entries, icloud_read_content, icloud_stik_dir, is_dir, listing_has_entry, mode_from_settings, path_exists,
    start_monitoring, stik_root_location_from, stop_monitoring, BridgeRequest, DirEntry, PathProbe, RawDirEntry, StikRoot,
    StorageMode, StorageOp, StorageSettings,
};

fn params(r: &BridgeRequest) -> Vec<(&str, &str)> {
    r.params.iter().map(|(k, v)| (k.as_str(), v.as_str())).collect()
}

#[test]
fn mode_prefers_icloud_then_absolute_custom_directory() {
    assert!(matches!(current_mode(None), StorageMode::Local));
    let icloud = StorageSettings { icloud_enabled: true, notes_directory: "/notes".to_string() };
    assert!(matches!(current_mode(Some(&icloud)), StorageMode::ICloud));
    let custom = StorageSettings { icloud_enabled: false, notes_directory: "/srv/notes".to_string() };
    match current_mode(Some(&custom)) {
        StorageMode::Custom(d) => assert_eq!(d, "/srv/notes"),
        _ => panic!("expected a custom directory"),
    }
    let relative = StorageSettings { icloud_enabled: false, notes_directory: "notes".to_string() };
    assert!(matches!(current_mode(Some(&relative)), StorageMode::Local));
    let empty = StorageSettings { icloud_enabled: false, notes_directory: String::new() };
    assert!(matches!(current_mode(Some(&empty)), StorageMode::Local));
    assert!(matches!(mode_from_settings(false, "/x", false), StorageMode::Local));
}

#[test]
fn icloud_operations_go_through_the_bridge() {
    let op = StorageOp::Read { path: "/a.md".to_string() };
    assert!(bridge_request(&StorageMode::Local, &op).is_none());
    assert!(bridge_request(&StorageMode::Custom("/x".to_string()), &op).is_none());
    let r = bridge_request(&StorageMode::ICloud, &op).unwrap();
    assert_eq!(r.method, "icloud.read");
    assert_eq!(params(&r), vec![("path", "/a.md")]);

    let r = bridge_request(
        &StorageMode::ICloud,
        &StorageOp::Write { path: "/a.md".to_string(), content: "hi".to_string() },
    )
    .unwrap();
    assert_eq!(r.method, "icloud.write");
    assert_eq!(params(&r), vec![("path", "/a.md"), ("content", "hi")]);

    let r = bridge_request(
        &StorageMode::ICloud,
        &StorageOp::WriteBytes { path: "/b.png".to_string(), data: vec![0, 1, 2, 255] },
    )
    .unwrap();
    assert_eq!(r.method, "icloud.write_bytes");
    assert_eq!(params(&r), vec![("path", "/b.png"), ("data", "AAEC/w==")]);

    let r = bridge_request(
        &StorageMode::ICloud,
        &StorageOp::Move { src: "/a".to_string(), dst: "/b".to_string() },
    )
    .unwrap();
    assert_eq!(r.method, "icloud.move");
    assert_eq!(params(&r), vec![("source", "/a"), ("destination", "/b")]);

    let r = bridge_request(&StorageMode::ICloud, &StorageOp::Copy { src: "/a".to_string(), dst: "/b".to_string() })
        .unwrap();
    assert_eq!(r.method, "icloud.copy_file");

    for (op, method) in [
        (StorageOp::Delete { path: "/p".to_string() }, "icloud.delete"),
        (StorageOp::RemoveDirAll { path: "/p".to_string() }, "icloud.delete"),
        (StorageOp::EnsureDir { path: "/p".to_string() }, "icloud.ensure_dir"),
        (StorageOp::ListDir { path: "/p".to_string() }, "icloud.list_dir"),
    ] {
        let r = bridge_request(&StorageMode::ICloud, &op).unwrap();
        assert_eq!(r.method, method);
        assert_eq!(params(&r), vec![("path", "/p")]);
    }
}

#[test]
fn monitoring_only_in_icloud_mode() {
    assert!(start_monitoring(&StorageMode::Local).is_none());
    let r = start_monitoring(&StorageMode::ICloud).unwrap();
    assert_eq!(r.method, "icloud.start_monitoring");
    assert!(r.params.is_empty());
    let r = stop_monitoring();
    assert_eq!(r.method, "icloud.stop_monitoring");
    assert!(r.params.is_empty());
}

#[test]
fn path_probes_by_mode() {
    assert!(matches!(path_exists(&StorageMode::Local, "/a/b.md"), PathProbe::LocalExists));
    match path_exists(&StorageMode::ICloud, "/notes/Inbox/todo.md") {
        PathProbe::ICloudListParent { parent, name } => {
            assert_eq!(parent, "/notes/Inbox");
            assert_eq!(name, "todo.md");
        }
        _ => panic!("iCloud existence goes through the parent's listing"),
    }
    match path_exists(&StorageMode::ICloud, "/notes/Inbox/") {
        PathProbe::ICloudListParent { parent, name } => {
            assert_eq!(parent, "/notes");
            assert_eq!(name, "Inbox");
        }
        _ => panic!("a folder is looked for in its parent too"),
    }
    assert!(matches!(path_exists(&StorageMode::ICloud, "/"), PathProbe::ICloudListDir));
    assert!(matches!(is_dir(&StorageMode::Custom("/x".to_string())), PathProbe::LocalIsDir));
    assert!(matches!(is_dir(&StorageMode::ICloud), PathProbe::ICloudListDir));
}

#[test]
fn listing_lookup_by_name() {
    let entry = |name: &str| DirEntry { name: name.to_string(), is_directory: false, size: 1, modified: None };
    let listing: Result<Vec<DirEntry>, String> = Ok(vec![entry("a.md"), entry("todo.md")]);
    assert!(listing_has_entry(&listing, "todo.md"));
    assert!(!listing_has_entry(&listing, "todo"));
    assert!(!listing_has_entry(&Ok(vec![]), "todo.md"));
    assert!(!listing_has_entry(&Err("offline".to_string()), "todo.md"));
}

fn b(s: &str) -> Vec<u8> {
    s.as_bytes().to_vec()
}

#[test]
fn icloud_locations() {
    assert_eq!(
        icloud_container_path_from(Some(b("/Users/me"))).unwrap(),
        b("/Users/me/Library/Mobile Documents/iCloud~com~0xmassi~stik")
    );
    assert_eq!(
        icloud_container_path_from(Some(b("/Users/me/"))).unwrap(),
        b("/Users/me/Library/Mobile Documents/iCloud~com~0xmassi~stik")
    );
    assert_eq!(icloud_container_path_from(None).unwrap_err(), "Cannot determine home directory");
    assert_eq!(icloud_stik_dir(b"/c"), b("/c/Documents/Stik"));
    assert!(icloud_available(&Ok(b("/c")), true));
    assert!(!icloud_available(&Ok(b("/c")), false));
    assert!(!icloud_available(&Err("no home".to_string()), true));
}

#[test]
fn home_paths_that_are_not_utf8_keep_their_bytes() {
    let home = vec![b'/', b'U', 0xe9, b'x'];
    let mut expected = home.clone();
    expected.extend_from_slice(b"/Library/Mobile Documents/iCloud~com~0xmassi~stik");
    assert_eq!(icloud_container_path_from(Some(home)).unwrap(), expected);
}

#[test]
fn stik_root_of_each_mode() {
    match stik_root_location_from(&StorageMode::Custom("/srv/notes".to_string()), None, None).unwrap() {
        StikRoot::Dir(d) => assert_eq!(d, b("/srv/notes/Stik")),
        _ => panic!("expected a directory"),
    }
    match stik_root_location_from(&StorageMode::Local, None, Some(b("/Users/me/Documents"))).unwrap() {
        StikRoot::Dir(d) => assert_eq!(d, b("/Users/me/Documents/Stik")),
        _ => panic!("expected a directory"),
    }
    assert_eq!(
        stik_root_location_from(&StorageMode::Local, Some(b("/h")), None).err(),
        Some("Could not find Documents directory".to_string())
    );
    match stik_root_location_from(&StorageMode::ICloud, Some(b("/h")), None).unwrap() {
        StikRoot::ICloud { container } => {
            assert_eq!(container, b("/h/Library/Mobile Documents/iCloud~com~0xmassi~stik"))
        }
        _ => panic!("expected the iCloud container"),
    }
}

#[test]
fn icloud_replies() {
    assert_eq!(icloud_read_content(Some("text".to_string())), Ok("text".to_string()));
    assert_eq!(icloud_read_content(None), Err("iCloud read returned no content".to_string()));
    assert_eq!(icloud_dir_entries(None).err(), Some("iCloud list_dir returned no entries".to_string()));

    let raw = |name: Option<&str>, dir: Option<bool>, size: Option<Option<u64>>| RawDirEntry {
        name: name.map(|s| s.to_string()),
        is_directory: dir,
        size,
        modified: Some("2026-02-06T22:00:00Z".to_string()),
    };
    let entries = icloud_dir_entries(Some(vec![
        raw(Some("a.md"), Some(false), Some(Some(12))),
        raw(None, Some(false), Some(Some(1))),
        raw(Some("Inbox"), Some(true), Some(None)),
        raw(Some("b.md"), None, Some(Some(1))),
        raw(Some("c.md"), Some(false), None),
    ]))
    .unwrap();
    assert_eq!(entries.len(), 2);
    assert_eq!(entries[0].name, "a.md");
    assert_eq!(entries[0].size, 12);
    assert!(!entries[0].is_directory);
    assert_eq!(entries[1].name, "Inbox");
    assert_eq!(entries[1].size, 0);
    assert!(entries[1].is_directory);
    assert_eq!(entries[1].modified, Some("2026-02-06T22:00:00Z".to_string()));
    assert!(dir_entry_from_fields(raw(Some("x"), Some(true), None)).is_none());
}
