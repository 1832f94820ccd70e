use workspace_snapshot::error::StoreError;
use workspace_snapshot::layout::{PaneNode, TabLayout, WindowLayout, WorkspaceLayout};
use workspace_snapshot::store::{delete, list, load, save, save_commit, save_prepare, StoreImage};

fn b(s: &str) -> Vec<u8> {
    s.as_bytes().to_vec()
}

fn leaf(cwd: &str, command: Option<&str>) -> PaneNode {
    PaneNode::Leaf {
        cwd: b(cwd),
        command: command.map(b),
    }
}

fn one_pane_layout(cwd: &str) -> WorkspaceLayout {
    WorkspaceLayout {
        windows: vec![WindowLayout {
            tabs: vec![TabLayout {
                panes: vec![leaf(cwd, None)],
            }],
        }],
    }
}

fn split_layout() -> WorkspaceLayout {
    WorkspaceLayout {
        windows: vec![
            WindowLayout {
                tabs: vec![
                    TabLayout {
                        panes: vec![
                            PaneNode::Split {
                                horizontal: true,
                                ratio_permille: 400,
                                first: 1,
                                second: 2,
                            },
                            leaf("/home/user/project", Some("vim src/main.rs")),
                            leaf("/home/user/project", None),
                        ],
                    },
                    TabLayout {
                        panes: vec![leaf("/var/log", Some("tail -f syslog"))],
                    },
                ],
            },
            WindowLayout {
                tabs: vec![TabLayout {
                    panes: vec![leaf("/tmp", None)],
                }],
            },
        ],
    }
}

#[test]
fn save_then_load_round_trips_layout() {
    let mut im = StoreImage { files: Vec::new() };
    let layout = split_layout();
    let r = save(&mut im, &b("work"), Some(b("my session")), 1234, layout.clone());
    assert!(r.is_ok());
    let rec = load(&im, &b("work")).expect("load after save");
    assert_eq!(rec.layout, layout);
    assert_eq!(rec.name, b("work"));
    assert_eq!(rec.description, Some(b("my session")));
    assert_eq!(rec.created_at, 1234);
}

#[test]
fn load_of_absent_name_is_not_found() {
    let im = StoreImage { files: Vec::new() };
    assert_eq!(load(&im, &b("nothing")), Err(StoreError::NotFound));
}

#[test]
fn save_rejects_invalid_name() {
    let mut im = StoreImage { files: Vec::new() };
    let r = save(&mut im, &b("bad/name"), None, 1, one_pane_layout("/tmp"));
    assert_eq!(r, Err(StoreError::InvalidName));
    assert!(im.files.is_empty());
    let r = save(&mut im, &b(""), None, 1, one_pane_layout("/tmp"));
    assert_eq!(r, Err(StoreError::InvalidName));
}

#[test]
fn delete_twice_reports_not_found_second_time() {
    let mut im = StoreImage { files: Vec::new() };
    save(&mut im, &b("gone"), None, 7, one_pane_layout("/tmp")).unwrap();
    assert_eq!(delete(&mut im, &b("gone")), Ok(()));
    assert_eq!(delete(&mut im, &b("gone")), Err(StoreError::NotFound));
    assert_eq!(load(&im, &b("gone")), Err(StoreError::NotFound));
}

#[test]
fn interrupted_save_is_invisible_to_load() {
    let mut im = StoreImage { files: Vec::new() };
    let r = save_prepare(&mut im, &b("half"), None, 9, one_pane_layout("/tmp"));
    assert!(r.is_ok());
    assert_eq!(im.files.len(), 1); // the temporary file was written
    assert_eq!(load(&im, &b("half")), Err(StoreError::NotFound));
}

#[test]
fn interrupted_overwrite_keeps_old_record() {
    let mut im = StoreImage { files: Vec::new() };
    let old_layout = one_pane_layout("/old");
    save(&mut im, &b("w"), None, 1, old_layout.clone()).unwrap();
    let r = save_prepare(&mut im, &b("w"), None, 2, one_pane_layout("/new"));
    assert!(r.is_ok());
    let rec = load(&im, &b("w")).expect("old record still loads");
    assert_eq!(rec.layout, old_layout);
    assert_eq!(rec.created_at, 1);
}

#[test]
fn commit_makes_prepared_save_visible() {
    let mut im = StoreImage { files: Vec::new() };
    let layout = one_pane_layout("/new");
    save_prepare(&mut im, &b("w"), None, 2, layout.clone()).unwrap();
    assert_eq!(save_commit(&mut im, &b("w")), Ok(()));
    let rec = load(&im, &b("w")).expect("committed record loads");
    assert_eq!(rec.layout, layout);
}

#[test]
fn commit_without_prepare_is_not_found() {
    let mut im = StoreImage { files: Vec::new() };
    assert_eq!(save_commit(&mut im, &b("w")), Err(StoreError::NotFound));
}

#[test]
fn second_save_under_same_name_wins() {
    let mut im = StoreImage { files: Vec::new() };
    let first = one_pane_layout("/first");
    let second = split_layout();
    save(&mut im, &b("a"), None, 1, first.clone()).unwrap();
    save(&mut im, &b("a"), None, 2, second.clone()).unwrap();
    let rec = load(&im, &b("a")).expect("load");
    assert_eq!(rec.layout, second);
    assert_ne!(rec.layout, first);
    assert_eq!(im.files.len(), 1); // replaced, not duplicated
}

#[test]
fn corrupt_record_is_reported_as_corrupt() {
    let mut im = StoreImage { files: Vec::new() };
    save(&mut im, &b("c"), None, 3, one_pane_layout("/tmp")).unwrap();
    // Flip one payload byte: the checksum no longer matches.
    let n = im.files[0].data.len();
    im.files[0].data[n - 1] ^= 0xff;
    assert_eq!(load(&im, &b("c")), Err(StoreError::Corrupt));
}

#[test]
fn truncated_record_is_reported_as_corrupt() {
    let mut im = StoreImage { files: Vec::new() };
    save(&mut im, &b("c"), None, 3, one_pane_layout("/tmp")).unwrap();
    im.files[0].data.truncate(6);
    assert_eq!(load(&im, &b("c")), Err(StoreError::Corrupt));
}

#[test]
fn newer_schema_version_is_reported_as_unsupported() {
    let mut im = StoreImage { files: Vec::new() };
    save(&mut im, &b("v"), None, 3, one_pane_layout("/tmp")).unwrap();
    // The version is the first little-endian word of the record.
    im.files[0].data[0] = 99;
    assert_eq!(load(&im, &b("v")), Err(StoreError::UnsupportedVersion));
}

#[test]
fn list_is_ordered_by_creation_time_descending() {
    let mut im = StoreImage { files: Vec::new() };
    save(&mut im, &b("oldest"), None, 5, one_pane_layout("/a")).unwrap();
    save(&mut im, &b("newest"), Some(b("top")), 10, one_pane_layout("/b")).unwrap();
    save(&mut im, &b("middle"), None, 7, one_pane_layout("/c")).unwrap();
    let entries = list(&im);
    assert_eq!(entries.len(), 3);
    assert_eq!(entries[0].name, b("newest"));
    assert_eq!(entries[0].description, Some(b("top")));
    assert_eq!(entries[0].created_at, 10);
    assert_eq!(entries[1].name, b("middle"));
    assert_eq!(entries[2].name, b("oldest"));
}

#[test]
fn list_skips_temporaries_and_corrupt_files() {
    let mut im = StoreImage { files: Vec::new() };
    save(&mut im, &b("good"), None, 1, one_pane_layout("/a")).unwrap();
    // An interrupted save leaves only a temporary file: never listed.
    save_prepare(&mut im, &b("half"), None, 2, one_pane_layout("/b")).unwrap();
    // A record file that does not decode is skipped, not fatal.
    save(&mut im, &b("bad"), None, 3, one_pane_layout("/c")).unwrap();
    for f in im.files.iter_mut() {
        if f.name == b("bad.snap") {
            let n = f.data.len();
            f.data[n - 1] ^= 0xff;
        }
    }
    let entries = list(&im);
    assert_eq!(entries.len(), 1);
    assert_eq!(entries[0].name, b("good"));
}

#[test]
fn delete_leaves_other_snapshots_alone() {
    let mut im = StoreImage { files: Vec::new() };
    save(&mut im, &b("keep"), None, 1, one_pane_layout("/a")).unwrap();
    save(&mut im, &b("drop"), None, 2, one_pane_layout("/b")).unwrap();
    delete(&mut im, &b("drop")).unwrap();
    assert!(load(&im, &b("keep")).is_ok());
    assert_eq!(load(&im, &b("drop")), Err(StoreError::NotFound));
}
