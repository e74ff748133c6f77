//! The fetch orchestrator's decisions: which workflows are of interest,
//! which run belongs to the requested commit, and which CI artifacts are
//! never fetched.

use vstd::prelude::*;
use crate::byteseq::{contains_bytes, contains_seq, eq_bytes};
use crate::lit::{
    bundle_pythonbuild, bundle_toolchain, install_only_dashed, spec_bundle_pythonbuild,
    spec_bundle_toolchain, spec_install_only_dashed, spec_workflow_linux, workflow_linux,
};

verus! {

/// Whether a workflow definition path is on the allow-list.
pub fn workflow_allowed(path: &Vec<u8>) -> (r: bool)
    ensures
        r == (path@ == spec_workflow_linux()),
{
    eq_bytes(path, &workflow_linux())
}

/// Whether a CI artifact is never fetched: the toolchain and
/// build-environment bundles, and the install-only artifacts that are
/// produced locally instead.
pub open spec fn spec_artifact_excluded(name: Seq<u8>) -> bool {
    ||| name == spec_bundle_pythonbuild()
    ||| name == spec_bundle_toolchain()
    ||| contains_seq(name, spec_install_only_dashed())
}

/// Whether a CI artifact is excluded from fetching.
pub fn artifact_excluded(name: &Vec<u8>) -> (r: bool)
    ensures
        r == spec_artifact_excluded(name@),
{
    if eq_bytes(name, &bundle_pythonbuild()) {
        return true;
    }
    if eq_bytes(name, &bundle_toolchain()) {
        return true;
    }
    contains_bytes(name, &install_only_dashed())
}

/// The first run whose head commit equals the requested one, if any.
pub fn find_run_for_commit(head_shas: &Vec<Vec<u8>>, commit: &Vec<u8>) -> (r: Option<usize>)
    ensures
        match r {
            Some(i) => {
                &&& 0 <= (i as int) < head_shas@.len()
                &&& head_shas@[i as int]@ == commit@
                &&& forall|j: int| 0 <= j < i ==> head_shas@[j]@ != commit@
            },
            None => forall|j: int| 0 <= j < head_shas@.len() ==> head_shas@[j]@ != commit@,
        },
{
    let mut i: usize = 0;
    while i < head_shas.len()
        invariant
            i <= head_shas@.len(),
            forall|j: int| 0 <= j < i ==> head_shas@[j]@ != commit@,
        decreases head_shas.len() - i,
    {
        if eq_bytes(&head_shas[i], commit) {
            return Some(i);
        }
        i = i + 1;
    }
    None
}

} // verus!
