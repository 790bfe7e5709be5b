//! The snapshot of the compositor's workspaces that a navigation decision
//! works on, and how it is put together from what the compositor reports.

use crate::ladder::{ints, ladder_depth, ladder_level, level_graph};
use std::collections::HashMap;
use vstd::prelude::*;

verus! {

broadcast use vstd::std_specs::hash::group_hash_axioms;

/// An output device as the compositor reports it.
pub struct MonitorInfo {
    pub name: String,
    pub focused: bool,
}

/// A workspace as the compositor reports it: its identifier, the name of the
/// monitor it is bound to, and the number of windows on it.
pub struct WorkspaceInfo {
    pub id: i32,
    pub monitor: String,
    pub windows: u16,
}

/// What is known of the workspaces at the moment of a navigation decision.
pub struct WorkspaceState {
    /// Identifier of the focused workspace.
    pub active_id: i32,
    /// Identifiers of the workspaces on the focused monitor, in reported order.
    pub monitor_ids: Vec<i32>,
    /// Identifiers of all workspaces that exist, in reported order.
    pub occupied_ids: Vec<i32>,
    /// Number of windows on each workspace that exists.
    pub window_counts: HashMap<i32, u16>,
    /// The identifier ladder, coarsest level first.
    pub level_graph: Vec<Vec<i64>>,
}

/// A normal workspace has a positive identifier; the others are reserved.
pub open spec fn is_normal(workspace: WorkspaceInfo) -> bool {
    workspace.id > 0
}

/// Monitor `i` is the focused one: the first in the list that is marked so.
pub open spec fn is_focused_monitor(monitors: Seq<MonitorInfo>, i: int) -> bool {
    &&& 0 <= i < monitors.len()
    &&& monitors[i].focused
    &&& forall|j: int| 0 <= j < i ==> !(#[trigger] monitors[j]).focused
}

/// The workspace is normal and bound to the focused monitor.
pub open spec fn on_focused_monitor(monitors: Seq<MonitorInfo>, workspace: WorkspaceInfo) -> bool {
    &&& is_normal(workspace)
    &&& exists|i: int| #[trigger]
        is_focused_monitor(monitors, i) && monitors[i].name@ == workspace.monitor@
}

/// The identifiers of the given workspaces, in order.
pub open spec fn ids_of(workspaces: Seq<WorkspaceInfo>) -> Seq<i32> {
    workspaces.map_values(|w: WorkspaceInfo| w.id)
}

/// The identifiers of the normal workspaces, in reported order.
pub open spec fn occupied(workspaces: Seq<WorkspaceInfo>) -> Seq<i32> {
    ids_of(workspaces.filter(|w: WorkspaceInfo| is_normal(w)))
}

/// The identifiers of the normal workspaces on the focused monitor, in
/// reported order; none where no monitor is focused.
pub open spec fn on_monitor(monitors: Seq<MonitorInfo>, workspaces: Seq<WorkspaceInfo>) -> Seq<i32> {
    ids_of(workspaces.filter(|w: WorkspaceInfo| on_focused_monitor(monitors, w)))
}

/// No later report carries the identifier of report `i`.
pub open spec fn is_last_report(workspaces: Seq<WorkspaceInfo>, i: int) -> bool {
    &&& 0 <= i < workspaces.len()
    &&& forall|j: int| i < j < workspaces.len() ==> (#[trigger] workspaces[j]).id != workspaces[i].id
}

/// `counts` has exactly the identifiers of the normal workspaces as keys, and
/// gives each the window count of its last report.
pub open spec fn counts_match(workspaces: Seq<WorkspaceInfo>, counts: Map<i32, u16>) -> bool {
    &&& forall|id: i32| #[trigger]
        counts.contains_key(id) <==> id > 0 && exists|i: int|
            0 <= i < workspaces.len() && (#[trigger] workspaces[i]).id == id
    &&& forall|i: int|
        is_last_report(workspaces, i) && (#[trigger] workspaces[i]).id > 0 ==> counts[workspaces[i].id]
            == workspaces[i].windows
}

/// The levels are those of the identifier ladder.
pub open spec fn is_ladder(graph: Seq<Vec<i64>>) -> bool {
    &&& graph.len() == ladder_depth()
    &&& forall|k: int| 0 <= k < graph.len() ==> ints((#[trigger] graph[k])@) == ladder_level(k as nat)
}

impl WorkspaceState {
    /// The snapshot is consistent: the window counts are keyed by exactly the
    /// workspaces that exist, every workspace of the focused monitor exists,
    /// all of them are normal, and the ladder is the identifier ladder.
    pub open spec fn wf(&self) -> bool {
        &&& forall|id: i32| #[trigger] self.window_counts@.contains_key(id) <==> self.occupied_ids@.contains(id)
        &&& forall|i: int| 0 <= i < self.occupied_ids.len() ==> #[trigger] self.occupied_ids[i] > 0
        &&& forall|i: int| 0 <= i < self.monitor_ids.len() ==> self.occupied_ids@.contains(#[trigger] self.monitor_ids[i])
        &&& is_ladder(self.level_graph@)
    }
}

/// Position of the focused monitor, if any monitor is focused.
pub fn focused_monitor(monitors: &Vec<MonitorInfo>) -> (found: Option<usize>)
    ensures
        match found {
            Some(i) => is_focused_monitor(monitors@, i as int),
            None => forall|i: int| 0 <= i < monitors.len() ==> !(#[trigger] monitors[i]).focused,
        },
{
    let mut i: usize = 0;
    while i < monitors.len()
        invariant
            i <= monitors.len(),
            forall|j: int| 0 <= j < i ==> !(#[trigger] monitors[j]).focused,
        decreases monitors.len() - i,
    {
        if monitors[i].focused {
            return Some(i);
        }
        i = i + 1;
    }
    None
}

proof fn lemma_filter_push<A>(s: Seq<A>, x: A, pred: spec_fn(A) -> bool)
    ensures
        s.push(x).filter(pred) == if pred(x) {
            s.filter(pred).push(x)
        } else {
            s.filter(pred)
        },
{
    reveal(Seq::filter);
    assert(s.push(x).drop_last() =~= s);
}

proof fn lemma_push_contains<A>(s: Seq<A>, x: A, y: A)
    ensures
        s.push(x).contains(y) <==> s.contains(y) || x == y,
{
    let pushed = s.push(x);
    if s.contains(y) {
        let i = choose|i: int| 0 <= i < s.len() && s[i] == y;
        assert(pushed[i] == y);
    }
    if x == y {
        assert(pushed[s.len() as int] == y);
    }
    if pushed.contains(y) {
        let i = choose|i: int| 0 <= i < pushed.len() && pushed[i] == y;
        if i < s.len() {
            assert(s[i] == y);
        }
    }
}

proof fn lemma_counts_step(workspaces: Seq<WorkspaceInfo>, i: int, counts: Map<i32, u16>)
    requires
        0 <= i < workspaces.len(),
        counts_match(workspaces.take(i), counts),
    ensures
        is_normal(workspaces[i]) ==> counts_match(
            workspaces.take(i + 1),
            counts.insert(workspaces[i].id, workspaces[i].windows),
        ),
        !is_normal(workspaces[i]) ==> counts_match(workspaces.take(i + 1), counts),
{
    let before = workspaces.take(i);
    let after = workspaces.take(i + 1);
    let w = workspaces[i];
    let next = if is_normal(w) {
        counts.insert(w.id, w.windows)
    } else {
        counts
    };
    assert(after[i] == w);
    assert forall|k: int| 0 <= k < i implies #[trigger] after[k] == before[k] by {}
    assert forall|id: i32| #[trigger]
        next.contains_key(id) <==> id > 0 && exists|k: int|
            0 <= k < after.len() && (#[trigger] after[k]).id == id by {
        if counts.contains_key(id) {
            let k = choose|k: int| 0 <= k < before.len() && (#[trigger] before[k]).id == id;
            assert(after[k].id == id);
        }
        if id > 0 && exists|k: int| 0 <= k < after.len() && (#[trigger] after[k]).id == id {
            let k = choose|k: int| 0 <= k < after.len() && (#[trigger] after[k]).id == id;
            if k < i {
                assert(before[k].id == id);
            }
        }
    }
    assert forall|k: int| is_last_report(after, k) && (#[trigger] after[k]).id > 0 implies next[after[k].id]
        == after[k].windows by {
        if k < i {
            assert(after[i].id != after[k].id);
            assert forall|j: int| k < j < before.len() implies (#[trigger] before[j]).id != before[k].id by {
                assert(after[j].id != after[k].id);
            }
            assert(is_last_report(before, k));
            assert(before[k].id > 0);
        }
    }
}

/// Assembles the snapshot from what the compositor reports: the identifier
/// of the active workspace, the monitors, and the workspaces. Reports with
/// an identifier that is not positive are left out.
pub fn get_state(active_id: i32, monitors: &Vec<MonitorInfo>, workspaces: &Vec<WorkspaceInfo>) -> (state:
    WorkspaceState)
    ensures
        state.active_id == active_id,
        state.monitor_ids@ == on_monitor(monitors@, workspaces@),
        state.occupied_ids@ == occupied(workspaces@),
        counts_match(workspaces@, state.window_counts@),
        is_ladder(state.level_graph@),
        state.wf(),
{
    let focused: Option<usize> = focused_monitor(monitors);
    let mut monitor_ids: Vec<i32> = Vec::new();
    let mut occupied_ids: Vec<i32> = Vec::new();
    let mut window_counts: HashMap<i32, u16> = HashMap::new();
    let mut i: usize = 0;
    proof {
        assert(workspaces@.take(0) =~= Seq::<WorkspaceInfo>::empty());
        reveal(Seq::filter);
    }
    while i < workspaces.len()
        invariant
            i <= workspaces.len(),
            match focused {
                Some(f) => is_focused_monitor(monitors@, f as int),
                None => forall|j: int| 0 <= j < monitors.len() ==> !(#[trigger] monitors[j]).focused,
            },
            monitor_ids@ == on_monitor(monitors@, workspaces@.take(i as int)),
            occupied_ids@ == occupied(workspaces@.take(i as int)),
            counts_match(workspaces@.take(i as int), window_counts@),
            forall|id: i32| #[trigger] window_counts@.contains_key(id) <==> occupied_ids@.contains(id),
            forall|j: int| 0 <= j < occupied_ids.len() ==> #[trigger] occupied_ids[j] > 0,
            forall|j: int| 0 <= j < monitor_ids.len() ==> occupied_ids@.contains(#[trigger] monitor_ids[j]),
        decreases workspaces.len() - i,
    {
        let ghost occupied_before = occupied_ids@;
        let workspace: &WorkspaceInfo = &workspaces[i];
        let on_focused: bool = match focused {
            Some(f) => workspace.id > 0 && workspace.monitor == monitors[f].name,
            None => false,
        };
        proof {
            let seen = workspaces@.take(i as int);
            assert(workspaces@.take(i + 1) =~= seen.push(*workspace));
            lemma_filter_push(seen, *workspace, |w: WorkspaceInfo| is_normal(w));
            lemma_filter_push(seen, *workspace, |w: WorkspaceInfo| on_focused_monitor(monitors@, w));
            lemma_counts_step(workspaces@, i as int, window_counts@);
            if on_focused {
                assert(is_focused_monitor(monitors@, focused.unwrap() as int));
            }
            assert(on_focused == on_focused_monitor(monitors@, *workspace));
        }
        if workspace.id > 0 {
            occupied_ids.push(workspace.id);
            window_counts.insert(workspace.id, workspace.windows);
        }
        if on_focused {
            monitor_ids.push(workspace.id);
        }
        proof {
            if workspace.id > 0 {
                assert forall|id: i32| #[trigger]
                    occupied_ids@.contains(id) <==> occupied_before.contains(id) || id == workspace.id by {
                    lemma_push_contains(occupied_before, workspace.id, id);
                }
            }
        }
        i = i + 1;
    }
    proof {
        assert(workspaces@.take(i as int) =~= workspaces@);
    }
    WorkspaceState { active_id, monitor_ids, occupied_ids, window_counts, level_graph: level_graph() }
}

} // verus!
