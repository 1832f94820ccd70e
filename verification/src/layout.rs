//! The workspace layout: an ordered tree of windows, tabs and panes.
//!
//! A tab's panes form an arena: a flat vector of nodes that refer to each
//! other by index. A split's children always carry a larger index than the
//! split itself, so the tree is acyclic by construction and every chain of
//! splits bottoms out in a leaf.
//!
//! Each executable type has a mathematical view (`PaneV`, `TabV`, ...);
//! contracts and the stored-format specification speak of the views.

use vstd::prelude::*;

verus! {

/// Largest count of windows, tabs or panes, and largest byte length of a
/// name, description, working directory or command, that a record may hold.
/// Keeps every length inside `u32` in the stored encoding.
pub const MAX_FIELD: usize = 0xFFFF;

/// One node of a tab's pane arena.
#[derive(Clone, Debug, PartialEq, Eq)]
pub enum PaneNode {
    /// A terminal pane.
    Leaf {
        /// Working directory of the pane, as a byte path.
        cwd: Vec<u8>,
        /// Command to restart in the pane, if one was recorded.
        command: Option<Vec<u8>>,
    },
    /// A split into two regions.
    Split {
        /// True for a left/right split, false for a top/bottom split.
        horizontal: bool,
        /// Share of the first region, in thousandths.
        ratio_permille: u32,
        /// Arena index of the first region's node.
        first: usize,
        /// Arena index of the second region's node.
        second: usize,
    },
}

/// One tab: a pane tree, rooted at arena index 0.
#[derive(Clone, Debug, PartialEq, Eq)]
pub struct TabLayout {
    pub panes: Vec<PaneNode>,
}

/// One window: its tabs in visual order.
#[derive(Clone, Debug, PartialEq, Eq)]
pub struct WindowLayout {
    pub tabs: Vec<TabLayout>,
}

/// The whole workspace: its windows in visual order.
#[derive(Clone, Debug, PartialEq, Eq)]
pub struct WorkspaceLayout {
    pub windows: Vec<WindowLayout>,
}

/// A named, persisted capture of a workspace.
#[derive(Clone, Debug, PartialEq, Eq)]
pub struct SnapshotRecord {
    /// Unique, user-chosen name, in the portable filename charset.
    pub name: Vec<u8>,
    /// Free-form description, if the user gave one.
    pub description: Option<Vec<u8>>,
    /// Seconds since an epoch the host fixes; newer records sort first.
    pub created_at: u64,
    /// Version of the stored encoding this record was written with.
    pub schema_version: u32,
    /// The captured layout.
    pub layout: WorkspaceLayout,
}

/// Mathematical view of a pane node.
pub ghost enum PaneV {
    Leaf { cwd: Seq<u8>, command: Option<Seq<u8>> },
    Split { horizontal: bool, ratio_permille: u32, first: int, second: int },
}

/// Mathematical view of a tab.
pub ghost struct TabV {
    pub panes: Seq<PaneV>,
}

/// Mathematical view of a window.
pub ghost struct WindowV {
    pub tabs: Seq<TabV>,
}

/// Mathematical view of a layout.
pub ghost struct LayoutV {
    pub windows: Seq<WindowV>,
}

/// Mathematical view of a record.
pub ghost struct RecordV {
    pub name: Seq<u8>,
    pub description: Option<Seq<u8>>,
    pub created_at: u64,
    pub schema_version: u32,
    pub layout: LayoutV,
}

impl View for PaneNode {
    type V = PaneV;

    open spec fn view(&self) -> PaneV {
        match self {
            PaneNode::Leaf { cwd, command } => PaneV::Leaf {
                cwd: cwd@,
                command: match command {
                    None => None,
                    Some(c) => Some(c@),
                },
            },
            PaneNode::Split { horizontal, ratio_permille, first, second } => PaneV::Split {
                horizontal: *horizontal,
                ratio_permille: *ratio_permille,
                first: *first as int,
                second: *second as int,
            },
        }
    }
}

impl View for TabLayout {
    type V = TabV;

    open spec fn view(&self) -> TabV {
        TabV { panes: self.panes@.map_values(|p: PaneNode| p@) }
    }
}

impl View for WindowLayout {
    type V = WindowV;

    open spec fn view(&self) -> WindowV {
        WindowV { tabs: self.tabs@.map_values(|t: TabLayout| t@) }
    }
}

impl View for WorkspaceLayout {
    type V = LayoutV;

    open spec fn view(&self) -> LayoutV {
        LayoutV { windows: self.windows@.map_values(|w: WindowLayout| w@) }
    }
}

impl View for SnapshotRecord {
    type V = RecordV;

    open spec fn view(&self) -> RecordV {
        RecordV {
            name: self.name@,
            description: match &self.description {
                None => None,
                Some(d) => Some(d@),
            },
            created_at: self.created_at,
            schema_version: self.schema_version,
            layout: self.layout@,
        }
    }
}

/// Well-formedness of one pane node at arena position `i` in an arena of
/// `n` nodes: a split's children lie strictly below it and inside the arena.
pub open spec fn pane_wf(p: PaneV, i: int, n: int) -> bool {
    match p {
        PaneV::Leaf { cwd, command } => {
            cwd.len() <= MAX_FIELD && (command matches Some(c) ==> c.len() <= MAX_FIELD)
        },
        PaneV::Split { horizontal, ratio_permille, first, second } => {
            ratio_permille <= 1000 && i < first < n && i < second < n && first != second
        },
    }
}

/// Well-formedness of a tab: at least one pane, a bounded count, and every
/// node well-formed at its position. Since a split's children carry larger
/// indices, the tree rooted at node 0 is acyclic and ends in leaves.
pub open spec fn tab_wf(t: TabV) -> bool {
    &&& 1 <= t.panes.len() <= MAX_FIELD
    &&& forall|i: int|
        0 <= i < t.panes.len() ==> pane_wf(#[trigger] t.panes[i], i, t.panes.len() as int)
}

/// Well-formedness of a window: at least one tab, each well-formed.
pub open spec fn window_wf(w: WindowV) -> bool {
    &&& 1 <= w.tabs.len() <= MAX_FIELD
    &&& forall|i: int| 0 <= i < w.tabs.len() ==> tab_wf(#[trigger] w.tabs[i])
}

/// Well-formedness of a layout: at least one window, each well-formed.
pub open spec fn layout_wf(l: LayoutV) -> bool {
    &&& 1 <= l.windows.len() <= MAX_FIELD
    &&& forall|i: int| 0 <= i < l.windows.len() ==> window_wf(#[trigger] l.windows[i])
}

/// A byte allowed in a snapshot name: the portable filename charset of
/// lower and upper letters, digits, hyphen, underscore and dot.
pub open spec fn portable_byte(b: u8) -> bool {
    ||| 97 <= b <= 122  // a..z
    ||| 65 <= b <= 90  // A..Z
    ||| 48 <= b <= 57  // 0..9
    ||| b == 45  // -
    ||| b == 95  // _
    ||| b == 46  // .
}

/// A valid snapshot name: non-empty, bounded, every byte portable.
pub open spec fn valid_name(n: Seq<u8>) -> bool {
    &&& 1 <= n.len() <= MAX_FIELD
    &&& forall|i: int| 0 <= i < n.len() ==> portable_byte(#[trigger] n[i])
}

/// Well-formedness of a whole record.
pub open spec fn record_wf(r: RecordV) -> bool {
    &&& valid_name(r.name)
    &&& (r.description matches Some(d) ==> d.len() <= MAX_FIELD)
    &&& layout_wf(r.layout)
}

/// A well-formed pane arena always holds at least one leaf: a split's
/// children carry strictly larger indices, so the last node can point at
/// nothing and must be a leaf. An empty tab never passes `tab_wf`.
pub proof fn lemma_tab_has_leaf(t: TabV)
    requires
        tab_wf(t),
    ensures
        exists|i: int| 0 <= i < t.panes.len() && t.panes[i] is Leaf,
{
    let last = t.panes.len() - 1;
    assert(pane_wf(t.panes[last], last, t.panes.len() as int));
    assert(t.panes[last] is Leaf);
}

/// Copies a byte string.
pub fn clone_bytes(v: &Vec<u8>) -> (r: Vec<u8>)
    ensures
        r@ == v@,
{
    let mut out: Vec<u8> = Vec::new();
    for i in 0..v.len()
        invariant
            out@ == v@.take(i as int),
    {
        out.push(v[i]);
        assert(out@ =~= v@.take(i + 1));
    }
    assert(v@.take(v.len() as int) =~= v@);
    out
}

/// Compares two byte strings.
pub fn bytes_eq(a: &Vec<u8>, b: &Vec<u8>) -> (r: bool)
    ensures
        r == (a@ == b@),
{
    if a.len() != b.len() {
        return false;
    }
    for i in 0..a.len()
        invariant
            a@.len() == b@.len(),
            forall|j: int| 0 <= j < i ==> a@[j] == b@[j],
    {
        if a[i] != b[i] {
            return false;
        }
    }
    proof {
        assert(a@ =~= b@);
    }
    true
}

/// Checks executably that a byte is in the portable charset.
pub fn is_portable_byte(b: u8) -> (r: bool)
    ensures
        r == portable_byte(b),
{
    (97 <= b && b <= 122) || (65 <= b && b <= 90) || (48 <= b && b <= 57) || b == 45 || b == 95
        || b == 46
}

/// Checks executably that a byte string is a valid snapshot name.
pub fn is_valid_name(n: &Vec<u8>) -> (r: bool)
    ensures
        r == valid_name(n@),
{
    if n.len() < 1 || n.len() > MAX_FIELD {
        return false;
    }
    for i in 0..n.len()
        invariant
            n.len() <= MAX_FIELD,
            forall|j: int| 0 <= j < i ==> portable_byte(#[trigger] n@[j]),
    {
        if !is_portable_byte(n[i]) {
            return false;
        }
    }
    true
}

} // verus!
