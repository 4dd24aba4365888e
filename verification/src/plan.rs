//! The comparison's decision rules, over a mathematical model of the trees.
//!
//! A directory tree is modeled as a map from relative path (a byte string)
//! to file content (a byte string). The comparison selects, from the
//! modified tree, every file that is absent from the baseline tree at the
//! same relative path or whose fingerprint differs from the baseline's; the
//! output tree is exactly the selected part of the modified tree.

use vstd::prelude::*;

use crate::hash::sea_hash;

verus! {

/// Whether the file of the modified tree at `rel` is selected for the
/// output: it exists there and is either new — the baseline has no file at
/// `rel` — or changed — the two fingerprints disagree.
pub open spec fn selects(
    baseline: Map<Seq<u8>, Seq<u8>>,
    modified: Map<Seq<u8>, Seq<u8>>,
    rel: Seq<u8>,
) -> bool {
    &&& modified.dom().contains(rel)
    &&& (!baseline.dom().contains(rel) || sea_hash(baseline[rel]) != sea_hash(modified[rel]))
}

/// The output tree: the selected files of the modified tree, at their own
/// relative paths, with their own content.
pub open spec fn output_tree(
    baseline: Map<Seq<u8>, Seq<u8>>,
    modified: Map<Seq<u8>, Seq<u8>>,
) -> Map<Seq<u8>, Seq<u8>> {
    Map::new(|rel: Seq<u8>| selects(baseline, modified, rel), |rel: Seq<u8>| modified[rel])
}

/// What the walk does with one visited entry.
#[derive(Clone, Copy, Debug, PartialEq, Eq, Structural)]
pub enum EntryPlan {
    /// Not a regular file: traversal descends, nothing else happens.
    Ignore,
    /// A regular file with no baseline counterpart: copied outright,
    /// without hashing.
    CopyNew,
    /// A regular file present in both trees: queued for the batched open
    /// and the fingerprint comparison.
    Compare,
}

/// The decision rule for one visited entry of the modified tree.
pub open spec fn plan_for(is_file: bool, baseline_has: bool) -> EntryPlan {
    if !is_file {
        EntryPlan::Ignore
    } else if !baseline_has {
        EntryPlan::CopyNew
    } else {
        EntryPlan::Compare
    }
}

/// Classifies one visited entry: `is_file` says whether it is a regular
/// file, `baseline_has` whether a file exists in the baseline tree at the
/// same relative path.
pub fn classify_entry(is_file: bool, baseline_has: bool) -> (p: EntryPlan)
    ensures
        p == plan_for(is_file, baseline_has),
{
    if !is_file {
        EntryPlan::Ignore
    } else if !baseline_has {
        EntryPlan::CopyNew
    } else {
        EntryPlan::Compare
    }
}

/// Decides whether a candidate file pair must be copied: the two
/// fingerprints disagree exactly when the contents are taken as changed.
pub fn should_copy(base_hash: u64, modified_hash: u64) -> (copy: bool)
    ensures
        copy == (base_hash != modified_hash),
{
    base_hash != modified_hash
}

/// Running the comparison twice over the same trees is idempotent: writing
/// the selection a second time over a previous run's output leaves the
/// output tree as it was.
pub proof fn lemma_idempotent(baseline: Map<Seq<u8>, Seq<u8>>, modified: Map<Seq<u8>, Seq<u8>>)
    ensures
        output_tree(baseline, modified).union_prefer_right(output_tree(baseline, modified))
            =~= output_tree(baseline, modified),
{
}

/// Completeness: a file of the modified tree with no baseline counterpart
/// appears in the output tree, at its own path, with its own content.
pub proof fn lemma_new_file_copied(
    baseline: Map<Seq<u8>, Seq<u8>>,
    modified: Map<Seq<u8>, Seq<u8>>,
    rel: Seq<u8>,
)
    requires
        modified.dom().contains(rel),
        !baseline.dom().contains(rel),
    ensures
        output_tree(baseline, modified).dom().contains(rel),
        output_tree(baseline, modified)[rel] == modified[rel],
{
}

/// Correctness of skip: a file with identical content in both trees is not
/// written to the output tree.
pub proof fn lemma_unchanged_skipped(
    baseline: Map<Seq<u8>, Seq<u8>>,
    modified: Map<Seq<u8>, Seq<u8>>,
    rel: Seq<u8>,
)
    requires
        baseline.dom().contains(rel),
        modified.dom().contains(rel),
        baseline[rel] == modified[rel],
    ensures
        !output_tree(baseline, modified).dom().contains(rel),
{
}

/// Correctness of change detection: a file present in both trees whose
/// contents differ — as witnessed by differing fingerprints — appears in
/// the output tree with the modified tree's content.
pub proof fn lemma_changed_copied(
    baseline: Map<Seq<u8>, Seq<u8>>,
    modified: Map<Seq<u8>, Seq<u8>>,
    rel: Seq<u8>,
)
    requires
        baseline.dom().contains(rel),
        modified.dom().contains(rel),
        baseline[rel] != modified[rel],
        sea_hash(baseline[rel]) != sea_hash(modified[rel]),
    ensures
        output_tree(baseline, modified).dom().contains(rel),
        output_tree(baseline, modified)[rel] == modified[rel],
{
}

/// Baseline-only files are ignored: a path absent from the modified tree
/// never appears in the output tree, whether or not the baseline has it.
pub proof fn lemma_baseline_only_ignored(
    baseline: Map<Seq<u8>, Seq<u8>>,
    modified: Map<Seq<u8>, Seq<u8>>,
    rel: Seq<u8>,
)
    requires
        !modified.dom().contains(rel),
    ensures
        !output_tree(baseline, modified).dom().contains(rel),
{
}

} // verus!
