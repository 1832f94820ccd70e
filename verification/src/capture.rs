//! The session-state capturer.
//!
//! The surrounding binary queries the host session — windows, tabs, panes,
//! working directories — and hands the raw result here as plain values, or
//! nothing when the host could not be queried. Capture validates the result
//! and yields the immutable layout a save may persist: a workspace with
//! nothing in it, an empty tab, an oversized field or an arena that does
//! not form a tree is rejected, never silently repaired.

use vstd::prelude::*;

use crate::error::CaptureError;
use crate::layout::{
    layout_wf, pane_wf, tab_wf, window_wf, PaneNode, TabLayout, WindowLayout, WorkspaceLayout,
    MAX_FIELD,
};

verus! {

/// Checks one pane node at arena position `i` of `n`.
fn check_pane(p: &PaneNode, i: usize, n: usize) -> (r: bool)
    ensures
        r == pane_wf(p@, i as int, n as int),
{
    match p {
        PaneNode::Leaf { cwd, command } => {
            cwd.len() <= MAX_FIELD && (match command {
                None => true,
                Some(c) => c.len() <= MAX_FIELD,
            })
        },
        PaneNode::Split { horizontal: _, ratio_permille, first, second } => {
            *ratio_permille <= 1000 && i < *first && *first < n && i < *second && *second < n
                && *first != *second
        },
    }
}

/// Checks a whole tab: panes present, bounded, every node well-formed.
fn check_tab(t: &TabLayout) -> (r: bool)
    ensures
        r == tab_wf(t@),
{
    if t.panes.len() < 1 || t.panes.len() > MAX_FIELD {
        return false;
    }
    let n = t.panes.len();
    for i in 0..n
        invariant
            n == t.panes@.len(),
            n <= MAX_FIELD,
            forall|j: int| 0 <= j < i ==> pane_wf(#[trigger] t@.panes[j], j, n as int),
    {
        if !check_pane(&t.panes[i], i, n) {
            proof {
                assert(t@.panes[i as int] == t.panes@[i as int]@);
                assert(!pane_wf(t@.panes[i as int], i as int, n as int));
            }
            return false;
        }
        proof {
            assert(t@.panes[i as int] == t.panes@[i as int]@);
        }
    }
    true
}

/// Checks a whole window: tabs present, bounded, each well-formed.
fn check_window(w: &WindowLayout) -> (r: bool)
    ensures
        r == window_wf(w@),
{
    if w.tabs.len() < 1 || w.tabs.len() > MAX_FIELD {
        return false;
    }
    for i in 0..w.tabs.len()
        invariant
            w.tabs@.len() <= MAX_FIELD,
            forall|j: int| 0 <= j < i ==> tab_wf(#[trigger] w@.tabs[j]),
    {
        if !check_tab(&w.tabs[i]) {
            proof {
                assert(w@.tabs[i as int] == w.tabs@[i as int]@);
            }
            return false;
        }
        proof {
            assert(w@.tabs[i as int] == w.tabs@[i as int]@);
        }
    }
    true
}

/// Checks a whole layout: windows present, bounded, each well-formed.
pub fn check_layout(l: &WorkspaceLayout) -> (r: bool)
    ensures
        r == layout_wf(l@),
{
    if l.windows.len() < 1 || l.windows.len() > MAX_FIELD {
        return false;
    }
    for i in 0..l.windows.len()
        invariant
            l.windows@.len() <= MAX_FIELD,
            forall|j: int| 0 <= j < i ==> window_wf(#[trigger] l@.windows[j]),
    {
        if !check_window(&l.windows[i]) {
            proof {
                assert(l@.windows[i as int] == l.windows@[i as int]@);
            }
            return false;
        }
        proof {
            assert(l@.windows[i as int] == l.windows@[i as int]@);
        }
    }
    true
}

/// Builds the point-in-time layout from what the host session reported.
/// `None` stands for a host that could not be queried at all — after the
/// caller's one retry — and surfaces as `SessionUnavailable`. A reported
/// workspace is returned exactly as queried when it is well-formed, and
/// rejected as `EmptyWorkspace` when it holds nothing to capture or does
/// not form a valid window/tab/pane tree.
pub fn capture(queried: Option<WorkspaceLayout>) -> (r: Result<WorkspaceLayout, CaptureError>)
    ensures
        queried is None ==> r == Err::<WorkspaceLayout, CaptureError>(
            CaptureError::SessionUnavailable,
        ),
        queried matches Some(l) ==> if layout_wf(l@) {
            r == Ok::<WorkspaceLayout, CaptureError>(l)
        } else {
            r == Err::<WorkspaceLayout, CaptureError>(CaptureError::EmptyWorkspace)
        },
{
    match queried {
        None => Err(CaptureError::SessionUnavailable),
        Some(l) => {
            if check_layout(&l) {
                Ok(l)
            } else {
                Err(CaptureError::EmptyWorkspace)
            }
        },
    }
}

} // verus!
