//! The restore orchestrator.
//!
//! Restoring replays a stored layout top-down: windows in their original
//! order, then tabs, then panes. Before the surrounding binary replays the
//! plan, every stored working directory is validated; one that no longer
//! exists is substituted with the configured fallback and recorded as a
//! warning, never a fatal error — a half-restored workspace is still
//! useful, so planning a restore cannot fail. The binary checks which
//! directories are missing and hands the list here; per-pane creation
//! failures it meets while replaying stay isolated on its side the same
//! way, one warning per pane.

use vstd::prelude::*;

use crate::layout::{
    clone_bytes, PaneNode, PaneV, TabLayout, TabV, WindowLayout, WindowV, WorkspaceLayout,
};

verus! {

/// What planning a restore yields: the layout to replay, with every
/// missing working directory already replaced by the fallback, and one
/// warning per replacement carrying the directory that was lost.
pub struct RestoreReport {
    pub layout: WorkspaceLayout,
    pub warnings: Vec<Vec<u8>>,
}

/// View of a list of byte strings.
pub open spec fn bytes_list_view(v: Seq<Vec<u8>>) -> Seq<Seq<u8>> {
    v.map_values(|b: Vec<u8>| b@)
}

/// A pane after substitution: a leaf whose directory is missing moves to
/// the fallback; everything else is untouched.
pub open spec fn subst_pane(p: PaneV, missing: Seq<Seq<u8>>, fb: Seq<u8>) -> PaneV {
    match p {
        PaneV::Leaf { cwd, command } => if missing.contains(cwd) {
            PaneV::Leaf { cwd: fb, command }
        } else {
            p
        },
        PaneV::Split { .. } => p,
    }
}

/// The warning one pane contributes: its stored directory, if missing.
pub open spec fn pane_warns(p: PaneV, missing: Seq<Seq<u8>>) -> Seq<Seq<u8>> {
    match p {
        PaneV::Leaf { cwd, command } => if missing.contains(cwd) {
            seq![cwd]
        } else {
            Seq::empty()
        },
        PaneV::Split { .. } => Seq::empty(),
    }
}

/// A tab after substitution.
pub open spec fn subst_tab(t: TabV, missing: Seq<Seq<u8>>, fb: Seq<u8>) -> TabV {
    TabV { panes: t.panes.map_values(|p: PaneV| subst_pane(p, missing, fb)) }
}

/// The warnings a pane arena contributes, in order.
pub open spec fn panes_warns(s: Seq<PaneV>, missing: Seq<Seq<u8>>) -> Seq<Seq<u8>>
    decreases s.len(),
{
    if s.len() == 0 {
        Seq::empty()
    } else {
        pane_warns(s[0], missing) + panes_warns(s.skip(1), missing)
    }
}

/// A window after substitution.
pub open spec fn subst_window(w: WindowV, missing: Seq<Seq<u8>>, fb: Seq<u8>) -> WindowV {
    WindowV { tabs: w.tabs.map_values(|t: TabV| subst_tab(t, missing, fb)) }
}

/// The warnings a window's tabs contribute, in order.
pub open spec fn tabs_warns(s: Seq<TabV>, missing: Seq<Seq<u8>>) -> Seq<Seq<u8>>
    decreases s.len(),
{
    if s.len() == 0 {
        Seq::empty()
    } else {
        panes_warns(s[0].panes, missing) + tabs_warns(s.skip(1), missing)
    }
}

/// A layout after substitution.
pub open spec fn subst_layout(
    l: crate::layout::LayoutV,
    missing: Seq<Seq<u8>>,
    fb: Seq<u8>,
) -> crate::layout::LayoutV {
    crate::layout::LayoutV {
        windows: l.windows.map_values(|w: WindowV| subst_window(w, missing, fb)),
    }
}

/// The warnings a layout's windows contribute, in order.
pub open spec fn windows_warns(s: Seq<WindowV>, missing: Seq<Seq<u8>>) -> Seq<Seq<u8>>
    decreases s.len(),
{
    if s.len() == 0 {
        Seq::empty()
    } else {
        tabs_warns(s[0].tabs, missing) + windows_warns(s.skip(1), missing)
    }
}

proof fn lemma_panes_warns_snoc(s: Seq<PaneV>, p: PaneV, missing: Seq<Seq<u8>>)
    ensures
        panes_warns(s.push(p), missing) == panes_warns(s, missing) + pane_warns(p, missing),
    decreases s.len(),
{
    if s.len() == 0 {
        assert(s.push(p)[0] == p);
        assert(s.push(p).skip(1) =~= Seq::<PaneV>::empty());
        assert(panes_warns(s.push(p).skip(1), missing) == Seq::<Seq<u8>>::empty());
        assert(panes_warns(s.push(p), missing) == pane_warns(p, missing)
            + Seq::<Seq<u8>>::empty());
        assert(pane_warns(p, missing) + Seq::<Seq<u8>>::empty() =~= Seq::<Seq<u8>>::empty()
            + pane_warns(p, missing));
        assert(panes_warns(s, missing) == Seq::<Seq<u8>>::empty());
    } else {
        assert(s.push(p)[0] == s[0]);
        assert(s.push(p).skip(1) =~= s.skip(1).push(p));
        lemma_panes_warns_snoc(s.skip(1), p, missing);
        assert(panes_warns(s.push(p), missing) == pane_warns(s[0], missing) + (panes_warns(
            s.skip(1),
            missing,
        ) + pane_warns(p, missing)));
        assert(pane_warns(s[0], missing) + (panes_warns(s.skip(1), missing) + pane_warns(
            p,
            missing,
        )) =~= (pane_warns(s[0], missing) + panes_warns(s.skip(1), missing)) + pane_warns(
            p,
            missing,
        ));
    }
}

proof fn lemma_tabs_warns_snoc(s: Seq<TabV>, t: TabV, missing: Seq<Seq<u8>>)
    ensures
        tabs_warns(s.push(t), missing) == tabs_warns(s, missing) + panes_warns(t.panes, missing),
    decreases s.len(),
{
    if s.len() == 0 {
        assert(s.push(t)[0] == t);
        assert(s.push(t).skip(1) =~= Seq::<TabV>::empty());
        assert(tabs_warns(s.push(t).skip(1), missing) == Seq::<Seq<u8>>::empty());
        assert(tabs_warns(s.push(t), missing) == panes_warns(t.panes, missing)
            + Seq::<Seq<u8>>::empty());
        assert(panes_warns(t.panes, missing) + Seq::<Seq<u8>>::empty() =~= Seq::<
            Seq<u8>,
        >::empty() + panes_warns(t.panes, missing));
        assert(tabs_warns(s, missing) == Seq::<Seq<u8>>::empty());
    } else {
        assert(s.push(t)[0] == s[0]);
        assert(s.push(t).skip(1) =~= s.skip(1).push(t));
        lemma_tabs_warns_snoc(s.skip(1), t, missing);
        assert(tabs_warns(s.push(t), missing) == panes_warns(s[0].panes, missing) + (tabs_warns(
            s.skip(1),
            missing,
        ) + panes_warns(t.panes, missing)));
        assert(panes_warns(s[0].panes, missing) + (tabs_warns(s.skip(1), missing) + panes_warns(
            t.panes,
            missing,
        )) =~= (panes_warns(s[0].panes, missing) + tabs_warns(s.skip(1), missing)) + panes_warns(
            t.panes,
            missing,
        ));
    }
}

proof fn lemma_windows_warns_snoc(s: Seq<WindowV>, w: WindowV, missing: Seq<Seq<u8>>)
    ensures
        windows_warns(s.push(w), missing) == windows_warns(s, missing) + tabs_warns(
            w.tabs,
            missing,
        ),
    decreases s.len(),
{
    if s.len() == 0 {
        assert(s.push(w)[0] == w);
        assert(s.push(w).skip(1) =~= Seq::<WindowV>::empty());
        assert(windows_warns(s.push(w).skip(1), missing) == Seq::<Seq<u8>>::empty());
        assert(windows_warns(s.push(w), missing) == tabs_warns(w.tabs, missing)
            + Seq::<Seq<u8>>::empty());
        assert(tabs_warns(w.tabs, missing) + Seq::<Seq<u8>>::empty() =~= Seq::<
            Seq<u8>,
        >::empty() + tabs_warns(w.tabs, missing));
        assert(windows_warns(s, missing) == Seq::<Seq<u8>>::empty());
    } else {
        assert(s.push(w)[0] == s[0]);
        assert(s.push(w).skip(1) =~= s.skip(1).push(w));
        lemma_windows_warns_snoc(s.skip(1), w, missing);
        assert(windows_warns(s.push(w), missing) == tabs_warns(s[0].tabs, missing) + (
        windows_warns(s.skip(1), missing) + tabs_warns(w.tabs, missing)));
        assert(tabs_warns(s[0].tabs, missing) + (windows_warns(s.skip(1), missing) + tabs_warns(
            w.tabs,
            missing,
        )) =~= (tabs_warns(s[0].tabs, missing) + windows_warns(s.skip(1), missing)) + tabs_warns(
            w.tabs,
            missing,
        ));
    }
}

/// Whether `x` is one of the listed byte strings.
fn list_contains(list: &Vec<Vec<u8>>, x: &Vec<u8>) -> (r: bool)
    ensures
        r == bytes_list_view(list@).contains(x@),
{
    let ghost lv = bytes_list_view(list@);
    for i in 0..list.len()
        invariant
            lv == bytes_list_view(list@),
            forall|j: int| 0 <= j < i ==> lv[j] != x@,
    {
        if crate::layout::bytes_eq(&list[i], x) {
            proof {
                assert(lv[i as int] == x@);
            }
            return true;
        }
    }
    proof {
        if lv.contains(x@) {
            let j = choose|j: int| 0 <= j < lv.len() && lv[j] == x@;
            assert(false);
        }
    }
    false
}

/// Copies an optional byte string.
fn clone_opt_bytes(o: &Option<Vec<u8>>) -> (r: Option<Vec<u8>>)
    ensures
        (match r {
            None => o is None,
            Some(v) => o matches Some(ov) && v@ == ov@,
        }),
{
    match o {
        None => None,
        Some(v) => Some(clone_bytes(v)),
    }
}

/// Substitutes missing directories in one tab, collecting warnings.
fn restore_tab(t: &TabLayout, missing: &Vec<Vec<u8>>, fallback: &Vec<u8>) -> (r: (
    TabLayout,
    Vec<Vec<u8>>,
))
    ensures
        r.0@ == subst_tab(t@, bytes_list_view(missing@), fallback@),
        bytes_list_view(r.1@) == panes_warns(t@.panes, bytes_list_view(missing@)),
{
    let ghost mv = bytes_list_view(missing@);
    let mut panes: Vec<PaneNode> = Vec::new();
    let mut warns: Vec<Vec<u8>> = Vec::new();
    proof {
        assert(bytes_list_view(warns@) =~= panes_warns(t@.panes.take(0), mv));
    }
    for i in 0..t.panes.len()
        invariant
            mv == bytes_list_view(missing@),
            panes@.len() == i,
            forall|j: int|
                0 <= j < i ==> (#[trigger] panes@[j])@ == subst_pane(t@.panes[j], mv, fallback@),
            bytes_list_view(warns@) == panes_warns(t@.panes.take(i as int), mv),
    {
        let ghost old_warns = warns@;
        proof {
            assert(t@.panes[i as int] == t.panes@[i as int]@);
        }
        match &t.panes[i] {
            PaneNode::Leaf { cwd, command } => {
                if list_contains(missing, cwd) {
                    warns.push(clone_bytes(cwd));
                    panes.push(
                        PaneNode::Leaf {
                            cwd: clone_bytes(fallback),
                            command: clone_opt_bytes(command),
                        },
                    );
                    proof {
                        assert(bytes_list_view(warns@) =~= bytes_list_view(old_warns) + pane_warns(
                            t@.panes[i as int],
                            mv,
                        ));
                    }
                } else {
                    panes.push(
                        PaneNode::Leaf { cwd: clone_bytes(cwd), command: clone_opt_bytes(command) },
                    );
                    proof {
                        assert(bytes_list_view(warns@) =~= bytes_list_view(old_warns) + pane_warns(
                            t@.panes[i as int],
                            mv,
                        ));
                    }
                }
            },
            PaneNode::Split { horizontal, ratio_permille, first, second } => {
                panes.push(
                    PaneNode::Split {
                        horizontal: *horizontal,
                        ratio_permille: *ratio_permille,
                        first: *first,
                        second: *second,
                    },
                );
                proof {
                    assert(bytes_list_view(warns@) =~= bytes_list_view(old_warns) + pane_warns(
                        t@.panes[i as int],
                        mv,
                    ));
                }
            },
        }
        proof {
            lemma_panes_warns_snoc(t@.panes.take(i as int), t@.panes[i as int], mv);
            assert(t@.panes.take(i as int).push(t@.panes[i as int]) =~= t@.panes.take(i + 1));
        }
    }
    proof {
        assert(t@.panes.take(t@.panes.len() as int) =~= t@.panes);
        assert(panes@.map_values(|p: PaneNode| p@) =~= t@.panes.map_values(
            |p: PaneV| subst_pane(p, mv, fallback@),
        ));
    }
    (TabLayout { panes }, warns)
}

/// Substitutes missing directories in one window, collecting warnings.
fn restore_window(w: &WindowLayout, missing: &Vec<Vec<u8>>, fallback: &Vec<u8>) -> (r: (
    WindowLayout,
    Vec<Vec<u8>>,
))
    ensures
        r.0@ == subst_window(w@, bytes_list_view(missing@), fallback@),
        bytes_list_view(r.1@) == tabs_warns(w@.tabs, bytes_list_view(missing@)),
{
    let ghost mv = bytes_list_view(missing@);
    let mut tabs: Vec<TabLayout> = Vec::new();
    let mut warns: Vec<Vec<u8>> = Vec::new();
    proof {
        assert(bytes_list_view(warns@) =~= tabs_warns(w@.tabs.take(0), mv));
    }
    for i in 0..w.tabs.len()
        invariant
            mv == bytes_list_view(missing@),
            tabs@.len() == i,
            forall|j: int|
                0 <= j < i ==> (#[trigger] tabs@[j])@ == subst_tab(w@.tabs[j], mv, fallback@),
            bytes_list_view(warns@) == tabs_warns(w@.tabs.take(i as int), mv),
    {
        let ghost old_warns = warns@;
        proof {
            assert(w@.tabs[i as int] == w.tabs@[i as int]@);
        }
        let (new_tab, mut tab_warns) = restore_tab(&w.tabs[i], missing, fallback);
        let ghost tw = tab_warns@;
        tabs.push(new_tab);
        warns.append(&mut tab_warns);
        proof {
            assert(bytes_list_view(warns@) =~= bytes_list_view(old_warns) + bytes_list_view(tw));
            lemma_tabs_warns_snoc(w@.tabs.take(i as int), w@.tabs[i as int], mv);
            assert(w@.tabs.take(i as int).push(w@.tabs[i as int]) =~= w@.tabs.take(i + 1));
        }
    }
    proof {
        assert(w@.tabs.take(w@.tabs.len() as int) =~= w@.tabs);
        assert(tabs@.map_values(|t: TabLayout| t@) =~= w@.tabs.map_values(
            |t: TabV| subst_tab(t, mv, fallback@),
        ));
    }
    (WindowLayout { tabs }, warns)
}

/// Plans a restore: validates every stored working directory against the
/// list of directories the surrounding binary found missing, substitutes
/// the fallback for each missing one, and records one warning per
/// substitution, carrying the lost directory. Planning never fails:
/// missing directories are warnings, not errors, and the returned layout
/// keeps the stored structure node for node.
pub fn plan_restore(layout: &WorkspaceLayout, missing: &Vec<Vec<u8>>, fallback: &Vec<u8>) -> (r:
    RestoreReport)
    ensures
        r.layout@ == subst_layout(layout@, bytes_list_view(missing@), fallback@),
        bytes_list_view(r.warnings@) == windows_warns(
            layout@.windows,
            bytes_list_view(missing@),
        ),
{
    let ghost mv = bytes_list_view(missing@);
    let mut windows: Vec<WindowLayout> = Vec::new();
    let mut warns: Vec<Vec<u8>> = Vec::new();
    proof {
        assert(bytes_list_view(warns@) =~= windows_warns(layout@.windows.take(0), mv));
    }
    for i in 0..layout.windows.len()
        invariant
            mv == bytes_list_view(missing@),
            windows@.len() == i,
            forall|j: int|
                0 <= j < i ==> (#[trigger] windows@[j])@ == subst_window(
                    layout@.windows[j],
                    mv,
                    fallback@,
                ),
            bytes_list_view(warns@) == windows_warns(layout@.windows.take(i as int), mv),
    {
        let ghost old_warns = warns@;
        proof {
            assert(layout@.windows[i as int] == layout.windows@[i as int]@);
        }
        let (new_win, mut win_warns) = restore_window(&layout.windows[i], missing, fallback);
        let ghost ww = win_warns@;
        windows.push(new_win);
        warns.append(&mut win_warns);
        proof {
            assert(bytes_list_view(warns@) =~= bytes_list_view(old_warns) + bytes_list_view(ww));
            lemma_windows_warns_snoc(layout@.windows.take(i as int), layout@.windows[i as int], mv);
            assert(layout@.windows.take(i as int).push(layout@.windows[i as int])
                =~= layout@.windows.take(i + 1));
        }
    }
    proof {
        assert(layout@.windows.take(layout@.windows.len() as int) =~= layout@.windows);
        assert(windows@.map_values(|w: WindowLayout| w@) =~= layout@.windows.map_values(
            |w: WindowV| subst_window(w, mv, fallback@),
        ));
    }
    RestoreReport { layout: WorkspaceLayout { windows }, warnings: warns }
}

} // verus!
