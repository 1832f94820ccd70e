use workspace_snapshot::codec::{encode_record, parse_record, SCHEMA_VERSION};
use workspace_snapshot::error::StoreError;
use workspace_snapshot::layout::{
    PaneNode, SnapshotRecord, TabLayout, WindowLayout, WorkspaceLayout,
};
use workspace_snapshot::store::{load, FileEntry, StoreImage};

fn b(s: &str) -> Vec<u8> {
    s.as_bytes().to_vec()
}

fn sample_record() -> SnapshotRecord {
    SnapshotRecord {
        name: b("sample"),
        description: Some(b("two windows")),
        created_at: 42,
        schema_version: SCHEMA_VERSION,
        layout: WorkspaceLayout {
            windows: vec![WindowLayout {
                tabs: vec![TabLayout {
                    panes: vec![
                        PaneNode::Split {
                            horizontal: false,
                            ratio_permille: 250,
                            first: 2,
                            second: 1,
                        },
                        PaneNode::Leaf { cwd: b("/right"), command: None },
                        PaneNode::Leaf { cwd: b("/left"), command: Some(b("htop")) },
                    ],
                }],
            }],
        },
    }
}

#[test]
fn encoding_decodes_to_the_same_record() {
    let rec = sample_record();
    let bytes = encode_record(&rec);
    let back = parse_record(&bytes).expect("round trip");
    assert_eq!(back, rec);
}

#[test]
fn encoding_starts_with_the_schema_version() {
    let bytes = encode_record(&sample_record());
    assert_eq!(bytes[0] as u32, SCHEMA_VERSION);
    assert_eq!(&bytes[1..4], &[0, 0, 0]);
}

#[test]
fn empty_bytes_are_corrupt() {
    assert_eq!(parse_record(&Vec::new()), Err(StoreError::Corrupt));
}

#[test]
fn trailing_garbage_is_corrupt() {
    let mut bytes = encode_record(&sample_record());
    bytes.push(0);
    assert_eq!(parse_record(&bytes), Err(StoreError::Corrupt));
}

#[test]
fn load_of_garbage_file_reports_why() {
    // Text bytes read as a huge version number: unknown to this reader.
    let im = StoreImage {
        files: vec![FileEntry { name: b("junk.snap"), data: b("not a record") }],
    };
    assert_eq!(load(&im, &b("junk")), Err(StoreError::UnsupportedVersion));
    // A known version followed by garbage is corruption.
    let im = StoreImage {
        files: vec![FileEntry { name: b("junk.snap"), data: vec![1, 0, 0, 0, 9, 9] }],
    };
    assert_eq!(load(&im, &b("junk")), Err(StoreError::Corrupt));
}
