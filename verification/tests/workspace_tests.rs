use workspace_snapshot::capture::capture;
use workspace_snapshot::commands::{SnapshotsAction, SnapshotsCommand};
use workspace_snapshot::error::{CaptureError, ScaffoldError, StoreError};
use workspace_snapshot::layout::{PaneNode, TabLayout, WindowLayout, WorkspaceLayout};
use workspace_snapshot::restore::plan_restore;

fn b(s: &str) -> Vec<u8> {
    s.as_bytes().to_vec()
}

fn leaf(cwd: &str) -> PaneNode {
    PaneNode::Leaf {
        cwd: b(cwd),
        command: None,
    }
}

fn three_pane_layout() -> WorkspaceLayout {
    WorkspaceLayout {
        windows: vec![WindowLayout {
            tabs: vec![
                TabLayout { panes: vec![leaf("/srv/app")] },
                TabLayout { panes: vec![leaf("/gone/away")] },
                TabLayout { panes: vec![leaf("/var/data")] },
            ],
        }],
    }
}

#[test]
fn capture_without_session_is_unavailable() {
    assert_eq!(capture(None), Err(CaptureError::SessionUnavailable));
}

#[test]
fn capture_of_empty_workspace_is_rejected() {
    let none = WorkspaceLayout { windows: vec![] };
    assert_eq!(capture(Some(none)), Err(CaptureError::EmptyWorkspace));
    let empty_tab = WorkspaceLayout {
        windows: vec![WindowLayout {
            tabs: vec![TabLayout { panes: vec![] }],
        }],
    };
    assert_eq!(capture(Some(empty_tab)), Err(CaptureError::EmptyWorkspace));
}

#[test]
fn capture_of_malformed_split_is_rejected() {
    // A split pointing at itself does not form a tree.
    let bad = WorkspaceLayout {
        windows: vec![WindowLayout {
            tabs: vec![TabLayout {
                panes: vec![PaneNode::Split {
                    horizontal: true,
                    ratio_permille: 500,
                    first: 0,
                    second: 0,
                }],
            }],
        }],
    };
    assert_eq!(capture(Some(bad)), Err(CaptureError::EmptyWorkspace));
}

#[test]
fn capture_returns_valid_workspace_unchanged() {
    let l = three_pane_layout();
    assert_eq!(capture(Some(l.clone())), Ok(l));
}

#[test]
fn restore_substitutes_missing_directory_with_one_warning() {
    let layout = three_pane_layout();
    let missing = vec![b("/gone/away")];
    let report = plan_restore(&layout, &missing, &b("/home/user"));
    // One warning, carrying the lost directory; never a fatal error.
    assert_eq!(report.warnings, vec![b("/gone/away")]);
    // All three panes are still planned; two keep their directory.
    let tabs = &report.layout.windows[0].tabs;
    assert_eq!(tabs.len(), 3);
    assert_eq!(tabs[0].panes[0], leaf("/srv/app"));
    assert_eq!(tabs[1].panes[0], leaf("/home/user"));
    assert_eq!(tabs[2].panes[0], leaf("/var/data"));
    let clean = tabs
        .iter()
        .filter(|t| match &t.panes[0] {
            PaneNode::Leaf { cwd, .. } => cwd != &b("/home/user"),
            _ => false,
        })
        .count();
    assert_eq!(clean, 2);
}

#[test]
fn restore_with_nothing_missing_keeps_layout() {
    let layout = three_pane_layout();
    let report = plan_restore(&layout, &Vec::new(), &b("/home/user"));
    assert!(report.warnings.is_empty());
    assert_eq!(report.layout, layout);
}

#[test]
fn snapshots_command_decides_delete_over_list() {
    let cmd = SnapshotsCommand {
        list: true,
        delete: Some(String::from("old")),
    };
    match cmd.action() {
        SnapshotsAction::Delete(n) => assert_eq!(n, "old"),
        _ => panic!("expected a deletion"),
    }
    let cmd = SnapshotsCommand { list: false, delete: None };
    assert!(matches!(cmd.action(), SnapshotsAction::List));
}

#[test]
fn error_messages_name_each_failure() {
    assert_eq!(StoreError::NotFound.message(), "snapshot not found");
    assert_eq!(StoreError::Corrupt.message(), "snapshot record is corrupt");
    assert_eq!(
        StoreError::UnsupportedVersion.message(),
        "snapshot schema version is not supported"
    );
    assert_eq!(StoreError::InvalidName.message(), "snapshot name is not portable");
    assert_eq!(CaptureError::SessionUnavailable.message(), "host session could not be queried");
    assert_eq!(CaptureError::EmptyWorkspace.message(), "workspace holds nothing to capture");
    assert_eq!(
        ScaffoldError::UnknownTemplate.message(),
        "no template of that id is registered"
    );
    assert_eq!(ScaffoldError::TargetExists.message(), "target directory is not empty");
}
