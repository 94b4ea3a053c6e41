//! Per-root planning: every root argument is an independent pipeline.
//!
//! Element `i` of the result is stated to be a function of element `i` of
//! the scans alone, so a root whose scan failed aborts only itself and can
//! never disturb another root's plan.

use crate::entries::{DirEnt, DirectoryGroup, dir_views, group_views};
use crate::order::path_views;
use crate::plan::{plan_groups, plan_groups_spec};
use vstd::prelude::*;

verus! {

/// What scanning one root produced: the root itself was unreadable —
/// fatal for this root alone — or a tree of directories and files.
pub enum RootScan {
    Unreadable,
    Tree { dirs: Vec<DirEnt>, files: Vec<Vec<u8>> },
}

/// One root's assembly plan.
pub enum RootPlan {
    /// The root's scan failed; nothing is done for it.
    Aborted,
    /// The bundles owed to this root.
    Bundles(Vec<DirectoryGroup>),
}

/// The plan owed to one root's scan: aborted for an unreadable root, the
/// full group plan for a scanned tree.
pub open spec fn plan_matches(scan: RootScan, plan: RootPlan, overwrite: bool) -> bool {
    match scan {
        RootScan::Unreadable => plan is Aborted,
        RootScan::Tree { dirs, files } => plan matches RootPlan::Bundles(g) && group_views(g@)
            == plan_groups_spec(dir_views(dirs@), path_views(files@), overwrite),
    }
}

/// Plans every root. Each element of the result depends on the matching
/// scan alone: injecting a failure into one root cannot change, delay or
/// suppress what any other root is owed.
pub fn plan_each_root(scans: &Vec<RootScan>, overwrite: bool) -> (r: Vec<RootPlan>)
    ensures
        r@.len() == scans@.len(),
        forall|i: int|
            0 <= i < scans@.len() ==> plan_matches(scans@[i], #[trigger] r@[i], overwrite),
{
    let mut out: Vec<RootPlan> = Vec::new();
    let mut i: usize = 0;
    while i < scans.len()
        invariant
            i <= scans.len(),
            out@.len() == i,
            forall|k: int| 0 <= k < i ==> plan_matches(scans@[k], #[trigger] out@[k], overwrite),
        decreases scans.len() - i,
    {
        let plan = match &scans[i] {
            RootScan::Unreadable => RootPlan::Aborted,
            RootScan::Tree { dirs, files } => RootPlan::Bundles(
                plan_groups(dirs, files, overwrite),
            ),
        };
        out.push(plan);
        i = i + 1;
    }
    out
}

} // verus!
