//! When the sourcemap has to be written again.

use vstd::prelude::*;

verus! {

/// What the sourcemap needs to know of one applied patch: whether it
/// removed instances, for each added instance whether it passes the
/// sourcemap's filter, and for each updated instance whether its class
/// name, name or file paths changed and whether it passes the filter.
pub struct PatchSummary {
    pub removed_any: bool,
    pub added_passes: Vec<bool>,
    pub updated: Vec<(bool, bool)>,
}

/// Whether one applied patch may change the sourcemap: it removed an
/// instance, added one that passes the filter, or changed the class name,
/// name or paths of one that passes the filter.
pub open spec fn patch_affects(p: PatchSummary) -> bool {
    p.removed_any || (exists|i: int| 0 <= i < p.added_passes@.len() && p.added_passes@[i]) || (exists|i: int|
        0 <= i < p.updated@.len() && p.updated@[i].0 && p.updated@[i].1)
}

fn affects(p: &PatchSummary) -> (r: bool)
    ensures
        r == patch_affects(*p),
{
    if p.removed_any {
        return true;
    }
    let mut i: usize = 0;
    while i < p.added_passes.len()
        invariant
            i <= p.added_passes@.len(),
            forall|k: int| 0 <= k < i ==> !p.added_passes@[k],
        decreases p.added_passes@.len() - i,
    {
        if p.added_passes[i] {
            return true;
        }
        i += 1;
    }
    let mut j: usize = 0;
    while j < p.updated.len()
        invariant
            j <= p.updated@.len(),
            forall|k: int| 0 <= k < j ==> !(p.updated@[k].0 && p.updated@[k].1),
        decreases p.updated@.len() - j,
    {
        if p.updated[j].0 && p.updated[j].1 {
            return true;
        }
        j += 1;
    }
    false
}

/// Whether any of the applied patches may change the sourcemap.
pub fn patch_set_affects_sourcemap(patches: &Vec<PatchSummary>) -> (r: bool)
    ensures
        r == exists|i: int| 0 <= i < patches@.len() && patch_affects(#[trigger] patches@[i]),
{
    let mut i: usize = 0;
    while i < patches.len()
        invariant
            i <= patches@.len(),
            forall|k: int| 0 <= k < i ==> !patch_affects(#[trigger] patches@[k]),
        decreases patches@.len() - i,
    {
        if affects(&patches[i]) {
            return true;
        }
        i += 1;
    }
    false
}

} // verus!
