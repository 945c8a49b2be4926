//! Artifact directories per ecosystem, and the accounting of a clean.
use crate::project::ProjectBaseType;
use crate::utils::{names_view, saturate};
use vstd::prelude::*;

verus! {

/// The artifact mapping: names of the regenerable directories at the root of
/// a project of each base type.
pub open spec fn artifact_names(base_type: ProjectBaseType) -> Seq<Seq<char>> {
    match base_type {
        ProjectBaseType::Cargo => seq!["target"@],
        ProjectBaseType::Composer => seq!["vendor"@],
        ProjectBaseType::NPM => seq!["node_modules"@],
    }
}

/// Names the artifact directories to remove from a project's root.
pub fn artifact_dirs(base_type: ProjectBaseType) -> (r: Vec<String>)
    ensures
        names_view(r@) == artifact_names(base_type),
{
    let name = match base_type {
        ProjectBaseType::Cargo => "target".to_owned(),
        ProjectBaseType::Composer => "vendor".to_owned(),
        ProjectBaseType::NPM => "node_modules".to_owned(),
    };
    let r = vec![name];
    assert(names_view(r@) =~= artifact_names(base_type));
    r
}

/// Bytes under one artifact directory before and after the attempt to
/// remove it (0 where it is gone, or was never there).
#[derive(Debug, Clone, Copy)]
pub struct ArtifactOutcome {
    pub size_before: u64,
    pub size_after: u64,
}

/// What one removal freed: the bytes that are no longer there.
pub open spec fn freed(o: ArtifactOutcome) -> nat {
    if o.size_before >= o.size_after {
        (o.size_before - o.size_after) as nat
    } else {
        0
    }
}

pub open spec fn total_freed(outcomes: Seq<ArtifactOutcome>) -> nat
    decreases outcomes.len(),
{
    if outcomes.len() == 0 {
        0
    } else {
        total_freed(outcomes.drop_last()) + freed(outcomes.last())
    }
}

/// The bytes a clean reclaimed, remeasured per artifact directory; a total
/// beyond `u64` is reported as `u64::MAX`.
pub fn reclaimed_bytes(outcomes: &Vec<ArtifactOutcome>) -> (r: u64)
    ensures
        r == saturate(total_freed(outcomes@)),
{
    let mut total: u64 = 0;
    let mut i: usize = 0;
    while i < outcomes.len()
        invariant
            i <= outcomes@.len(),
            total == saturate(total_freed(outcomes@.subrange(0, i as int))),
        decreases outcomes@.len() - i,
    {
        let o = outcomes[i];
        if o.size_before >= o.size_after {
            total = total.saturating_add(o.size_before - o.size_after);
        }
        assert(outcomes@.subrange(0, i + 1).drop_last() =~= outcomes@.subrange(0, i as int));
        i = i + 1;
    }
    assert(outcomes@.subrange(0, outcomes@.len() as int) =~= outcomes@);
    total
}

/// Cleaning a project whose artifact directories are already gone reclaims
/// nothing.
pub proof fn lemma_clean_without_artifacts_frees_nothing(outcomes: Seq<ArtifactOutcome>)
    requires
        forall|k: int| 0 <= k < outcomes.len() ==> (#[trigger] outcomes[k]).size_before == 0,
    ensures
        total_freed(outcomes) == 0,
    decreases outcomes.len(),
{
    if outcomes.len() > 0 {
        let rest = outcomes.drop_last();
        assert forall|k: int| 0 <= k < rest.len() implies (#[trigger] rest[k]).size_before == 0 by {
            assert(rest[k] == outcomes[k]);
        }
        lemma_clean_without_artifacts_frees_nothing(rest);
    }
}

} // verus!
