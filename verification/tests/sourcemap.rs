use librojo::sourcemap::{patch_set_affects_sourcemap, PatchSummary};

fn patch(removed_any: bool, added: Vec<bool>, updated: Vec<(bool, bool)>) -> PatchSummary {
    PatchSummary { removed_any, added_passes: added, updated }
}

#[test]
fn removals_and_relevant_additions_affect_the_sourcemap() {
    assert!(patch_set_affects_sourcemap(&vec![patch(true, vec![], vec![])]));
    assert!(patch_set_affects_sourcemap(&vec![patch(false, vec![false, true], vec![])]));
    assert!(patch_set_affects_sourcemap(&vec![patch(false, vec![], vec![]), patch(false, vec![], vec![(true, true)])]));
}

#[test]
fn irrelevant_patches_do_not_affect_the_sourcemap() {
    assert!(!patch_set_affects_sourcemap(&vec![]));
    assert!(!patch_set_affects_sourcemap(&vec![patch(false, vec![false], vec![(true, false), (false, true)])]));
}
