//! The batched open queue and its observable behavior.
//!
//! Candidate files — present in both trees — are not hashed one by one.
//! They are queued, up to a fixed capacity, and a flush opens and compares
//! a whole batch at once. Batching is a performance mechanism only: this
//! module models a whole run as a sequence of per-entry decisions and
//! proves that the set of copied files does not depend on the batch
//! capacity, and equals exactly the selection that the tree model
//! prescribes.
//!
//! [`OpenBatcher`] is the executable bookkeeping of the queue: reusable
//! name and source slots, a pending counter that resets on flush, and a
//! fixed capacity.

use vstd::prelude::*;
use vstd::multiset::Multiset;
use vstd::seq_lib::lemma_multiset_commutative;

use crate::hash::sea_hash;
use crate::plan::selects;
use crate::relpath::{copy_bytes, set_or_push};

verus! {

/// One visited entry of the modified tree, reduced to what the decision
/// rules read: its relative path, whether it is a regular file, whether the
/// baseline tree has a file at the same relative path, and the two content
/// fingerprints (meaningful only for a candidate, where both files exist).
pub struct EntryModel {
    pub rel: Seq<u8>,
    pub is_file: bool,
    pub in_baseline: bool,
    pub base_hash: u64,
    pub mod_hash: u64,
}

/// Whether the entry ends up copied to the output tree: it is a regular
/// file and is either new or has a differing fingerprint.
pub open spec fn entry_selected(e: EntryModel) -> bool {
    e.is_file && (!e.in_baseline || e.base_hash != e.mod_hash)
}

/// The relative paths of the selected entries, in traversal order.
pub open spec fn selected_rels(entries: Seq<EntryModel>) -> Seq<Seq<u8>>
    decreases entries.len(),
{
    if entries.len() == 0 {
        Seq::empty()
    } else {
        (if entry_selected(entries.first()) {
            seq![entries.first().rel]
        } else {
            Seq::empty()
        }) + selected_rels(entries.drop_first())
    }
}

/// The relative paths a flush copies out of a queue of candidates: those
/// whose fingerprints disagree, in queue order.
pub open spec fn changed_rels(queue: Seq<EntryModel>) -> Seq<Seq<u8>>
    decreases queue.len(),
{
    if queue.len() == 0 {
        Seq::empty()
    } else {
        (if queue.first().base_hash != queue.first().mod_hash {
            seq![queue.first().rel]
        } else {
            Seq::empty()
        }) + changed_rels(queue.drop_first())
    }
}

/// One whole run of the walk, batched: entries are taken in order; a
/// non-file does nothing; a new file is copied at once; a candidate joins
/// the queue, and when the queue reaches the capacity it is flushed — its
/// changed files are copied in queue order. The trailing partial queue is
/// always flushed when the walk ends. The result is the sequence of copied
/// relative paths, in the order the copies happen.
pub open spec fn batched_run(entries: Seq<EntryModel>, queue: Seq<EntryModel>, cap: int) -> Seq<
    Seq<u8>,
>
    decreases entries.len(),
{
    if entries.len() == 0 {
        changed_rels(queue)
    } else {
        let e = entries.first();
        let rest = entries.drop_first();
        if !e.is_file {
            batched_run(rest, queue, cap)
        } else if !e.in_baseline {
            seq![e.rel] + batched_run(rest, queue, cap)
        } else if queue.len() + 1 >= cap {
            changed_rels(queue.push(e)) + batched_run(rest, Seq::empty(), cap)
        } else {
            batched_run(rest, queue.push(e), cap)
        }
    }
}

proof fn lemma_changed_rels_add(a: Seq<EntryModel>, b: Seq<EntryModel>)
    ensures
        changed_rels(a + b) == changed_rels(a) + changed_rels(b),
    decreases a.len(),
{
    if a.len() == 0 {
        assert(a + b =~= b);
        assert(changed_rels(a) + changed_rels(b) =~= changed_rels(b));
    } else {
        assert((a + b).first() == a.first());
        assert((a + b).drop_first() =~= a.drop_first() + b);
        lemma_changed_rels_add(a.drop_first(), b);
        assert(changed_rels(a + b) =~= changed_rels(a) + changed_rels(b));
    }
}

proof fn lemma_to_multiset_empty()
    ensures
        Seq::<Seq<u8>>::empty().to_multiset() =~= Multiset::<Seq<u8>>::empty(),
{
    broadcast use vstd::seq_lib::group_to_multiset_ensures;
    broadcast use vstd::multiset::lemma_multiset_empty_len;

    assert(Seq::<Seq<u8>>::empty().to_multiset().len() == 0);
}

proof fn lemma_changed_singleton(e: EntryModel)
    ensures
        changed_rels(seq![e]) == (if e.base_hash != e.mod_hash {
            seq![e.rel]
        } else {
            Seq::<Seq<u8>>::empty()
        }),
{
    assert(seq![e].drop_first() =~= Seq::<EntryModel>::empty());
    assert(changed_rels(Seq::<EntryModel>::empty()) == Seq::<Seq<u8>>::empty());
    if e.base_hash != e.mod_hash {
        assert(changed_rels(seq![e]) =~= seq![e.rel]);
    } else {
        assert(changed_rels(seq![e]) =~= Seq::<Seq<u8>>::empty());
    }
}

/// The copies of a batched run are, as a multiset, the flush of the queue
/// it starts with together with the selected entries of the walk —
/// whatever the capacity.
proof fn lemma_batched_run_all(entries: Seq<EntryModel>, queue: Seq<EntryModel>, cap: int)
    requires
        cap >= 1,
    ensures
        batched_run(entries, queue, cap).to_multiset() == changed_rels(queue).to_multiset().add(
            selected_rels(entries).to_multiset(),
        ),
    decreases entries.len(),
{
    broadcast use vstd::multiset::group_multiset_axioms;
    broadcast use vstd::seq_lib::group_to_multiset_ensures;

    if entries.len() == 0 {
        lemma_to_multiset_empty();
        assert(selected_rels(entries).to_multiset() =~= Multiset::<Seq<u8>>::empty());
        assert(batched_run(entries, queue, cap).to_multiset() =~= changed_rels(
            queue,
        ).to_multiset().add(selected_rels(entries).to_multiset()));
    } else {
        let e = entries.first();
        let rest = entries.drop_first();
        let pre: Seq<Seq<u8>> = if entry_selected(e) {
            seq![e.rel]
        } else {
            Seq::empty()
        };
        lemma_multiset_commutative(pre, selected_rels(rest));
        assert(selected_rels(entries) == pre + selected_rels(rest));
        if !e.is_file {
            lemma_batched_run_all(rest, queue, cap);
            assert(pre =~= Seq::<Seq<u8>>::empty());
            lemma_to_multiset_empty();
            assert(pre.to_multiset() =~= Multiset::<Seq<u8>>::empty());
            assert(batched_run(entries, queue, cap).to_multiset() =~= changed_rels(
                queue,
            ).to_multiset().add(selected_rels(entries).to_multiset()));
        } else if !e.in_baseline {
            lemma_batched_run_all(rest, queue, cap);
            lemma_multiset_commutative(seq![e.rel], batched_run(rest, queue, cap));
            assert(pre == seq![e.rel]);
            assert(batched_run(entries, queue, cap).to_multiset() =~= changed_rels(
                queue,
            ).to_multiset().add(selected_rels(entries).to_multiset()));
        } else if queue.len() + 1 >= cap {
            lemma_batched_run_all(rest, Seq::empty(), cap);
            lemma_multiset_commutative(changed_rels(queue.push(e)), batched_run(rest, Seq::empty(), cap));
            assert(queue.push(e) =~= queue + seq![e]);
            lemma_changed_rels_add(queue, seq![e]);
            lemma_changed_singleton(e);
            lemma_multiset_commutative(changed_rels(queue), changed_rels(seq![e]));
            assert(changed_rels(seq![e]) == pre);
            assert(changed_rels(Seq::<EntryModel>::empty()) =~= Seq::<Seq<u8>>::empty());
            lemma_to_multiset_empty();
            assert(changed_rels(Seq::<EntryModel>::empty()).to_multiset() =~= Multiset::<
                Seq<u8>,
            >::empty());
            assert(batched_run(entries, queue, cap).to_multiset() =~= changed_rels(
                queue,
            ).to_multiset().add(selected_rels(entries).to_multiset()));
        } else {
            lemma_batched_run_all(rest, queue.push(e), cap);
            assert(queue.push(e) =~= queue + seq![e]);
            lemma_changed_rels_add(queue, seq![e]);
            lemma_changed_singleton(e);
            lemma_multiset_commutative(changed_rels(queue), changed_rels(seq![e]));
            assert(changed_rels(seq![e]) == pre);
            assert(batched_run(entries, queue, cap).to_multiset() =~= changed_rels(
                queue,
            ).to_multiset().add(selected_rels(entries).to_multiset()));
        }
    }
}

/// A batched run copies exactly the selected entries: the batch queue is a
/// performance mechanism, not an observable behavior.
pub proof fn lemma_batched_run_selects(entries: Seq<EntryModel>, cap: int)
    requires
        cap >= 1,
    ensures
        batched_run(entries, Seq::empty(), cap).to_multiset() == selected_rels(
            entries,
        ).to_multiset(),
{
    broadcast use vstd::multiset::group_multiset_axioms;

    lemma_batched_run_all(entries, Seq::empty(), cap);
    assert(changed_rels(Seq::<EntryModel>::empty()) =~= Seq::<Seq<u8>>::empty());
    lemma_to_multiset_empty();
    assert(changed_rels(Seq::<EntryModel>::empty()).to_multiset() =~= Multiset::<
        Seq<u8>,
    >::empty());
    assert(Multiset::<Seq<u8>>::empty().add(selected_rels(entries).to_multiset()) =~= selected_rels(
        entries,
    ).to_multiset());
}

/// Batch-boundary invariance: two runs over the same walk with different
/// capacities copy the same files.
pub proof fn lemma_batch_invariance(entries: Seq<EntryModel>, cap1: int, cap2: int)
    requires
        cap1 >= 1,
        cap2 >= 1,
    ensures
        batched_run(entries, Seq::empty(), cap1).to_multiset() == batched_run(
            entries,
            Seq::empty(),
            cap2,
        ).to_multiset(),
{
    lemma_batched_run_selects(entries, cap1);
    lemma_batched_run_selects(entries, cap2);
}

/// A relative path is among the selected ones exactly when some entry of
/// the walk is selected and carries it.
pub proof fn lemma_selected_rels_membership(entries: Seq<EntryModel>, rel: Seq<u8>)
    ensures
        selected_rels(entries).contains(rel) <==> exists|i: int|
            0 <= i < entries.len() && #[trigger] entry_selected(entries[i])
                && entries[i].rel == rel,
    decreases entries.len(),
{
    if entries.len() == 0 {
    } else {
        let e = entries.first();
        let rest = entries.drop_first();
        lemma_selected_rels_membership(rest, rel);
        let pre: Seq<Seq<u8>> = if entry_selected(e) {
            seq![e.rel]
        } else {
            Seq::empty()
        };
        assert(selected_rels(entries) == pre + selected_rels(rest));
        assert(forall|j: int| 0 <= j < rest.len() ==> rest[j] == entries[j + 1]);
        if selected_rels(entries).contains(rel) {
            let k = choose|k: int|
                0 <= k < selected_rels(entries).len() && selected_rels(entries)[k] == rel;
            if k < pre.len() {
                assert(entry_selected(entries[0]) && entries[0].rel == rel);
            } else {
                assert(selected_rels(rest)[k - pre.len()] == rel);
                assert(selected_rels(rest).contains(rel));
            }
        }
        if exists|i: int|
            0 <= i < entries.len() && #[trigger] entry_selected(entries[i]) && entries[i].rel
                == rel {
            let i = choose|i: int|
                0 <= i < entries.len() && #[trigger] entry_selected(entries[i]) && entries[i].rel
                    == rel;
            if i == 0 {
                assert(selected_rels(entries)[0] == rel);
            } else {
                assert(entry_selected(rest[i - 1]) && rest[i - 1].rel == rel);
                assert(selected_rels(rest).contains(rel));
                let k = choose|k: int|
                    0 <= k < selected_rels(rest).len() && selected_rels(rest)[k] == rel;
                assert(selected_rels(entries)[k + pre.len()] == rel);
            }
        }
    }
}

/// An entry agrees with the tree model when its fields say of the two trees
/// what the model says: the file is in the modified tree, the baseline flag
/// and the fingerprints match the trees' contents.
pub open spec fn entry_consistent(
    baseline: Map<Seq<u8>, Seq<u8>>,
    modified: Map<Seq<u8>, Seq<u8>>,
    e: EntryModel,
) -> bool {
    e.is_file ==> {
        &&& modified.dom().contains(e.rel)
        &&& e.mod_hash == sea_hash(modified[e.rel])
        &&& e.in_baseline == baseline.dom().contains(e.rel)
        &&& (e.in_baseline ==> e.base_hash == sea_hash(baseline[e.rel]))
    }
}

/// For an entry that agrees with the tree model, the per-entry decision
/// coincides with the tree-level selection rule.
pub proof fn lemma_entry_matches_tree(
    baseline: Map<Seq<u8>, Seq<u8>>,
    modified: Map<Seq<u8>, Seq<u8>>,
    e: EntryModel,
)
    requires
        entry_consistent(baseline, modified, e),
    ensures
        entry_selected(e) == (e.is_file && selects(baseline, modified, e.rel)),
{
}

/// A batched run agrees with the tree model: when every entry of the walk
/// says of the two trees what the trees hold, a relative path is copied
/// exactly when some file entry of the walk carries it and the tree-level
/// selection rule selects it — whatever the batch capacity.
pub proof fn lemma_run_agrees_with_tree(
    baseline: Map<Seq<u8>, Seq<u8>>,
    modified: Map<Seq<u8>, Seq<u8>>,
    entries: Seq<EntryModel>,
    cap: int,
    rel: Seq<u8>,
)
    requires
        cap >= 1,
        forall|i: int| 0 <= i < entries.len() ==> entry_consistent(
            baseline,
            modified,
            #[trigger] entries[i],
        ),
    ensures
        batched_run(entries, Seq::empty(), cap).contains(rel) <==> exists|i: int|
            0 <= i < entries.len() && #[trigger] entries[i].is_file && entries[i].rel == rel
                && selects(baseline, modified, rel),
{
    broadcast use vstd::seq_lib::group_to_multiset_ensures;

    lemma_batched_run_selects(entries, cap);
    lemma_selected_rels_membership(entries, rel);
    let run = batched_run(entries, Seq::empty(), cap);
    assert(run.contains(rel) <==> run.to_multiset().count(rel) > 0);
    assert(selected_rels(entries).contains(rel) <==> selected_rels(entries).to_multiset().count(
        rel,
    ) > 0);
    assert(run.contains(rel) <==> selected_rels(entries).contains(rel));
    assert(forall|i: int| 0 <= i < entries.len() ==> entry_selected(#[trigger] entries[i])
        == (entries[i].is_file && selects(baseline, modified, entries[i].rel)));
}

/// The bookkeeping of the batched open queue: for each pending candidate
/// one slot holding its base name (for the relative open against the
/// cached parent handles) and its absolute source path (for the copy on a
/// fingerprint mismatch). Slots are reused across flushes: a flush resets
/// the pending counter and leaves the backing storage in place, so a later
/// batch overwrites the slots instead of reallocating them.
pub struct OpenBatcher {
    names: Vec<Vec<u8>>,
    sources: Vec<Vec<u8>>,
    pending: usize,
    capacity: usize,
}

impl OpenBatcher {
    /// Structural invariant: the pending counter stays within the capacity
    /// and within the backing storage, and the two slot arrays stay in
    /// step.
    pub closed spec fn wf(self) -> bool {
        &&& 1 <= self.capacity
        &&& self.pending <= self.capacity
        &&& self.names@.len() == self.sources@.len()
        &&& self.pending <= self.names@.len()
    }

    /// The fixed number of candidate pairs a batch accepts before a flush
    /// is forced.
    pub closed spec fn cap(self) -> int {
        self.capacity as int
    }

    /// The base names of the pending candidates, in submission order.
    pub closed spec fn queued_names(self) -> Seq<Seq<u8>> {
        self.names@.map_values(|v: Vec<u8>| v@).take(self.pending as int)
    }

    /// The absolute source paths of the pending candidates, in submission
    /// order.
    pub closed spec fn queued_sources(self) -> Seq<Seq<u8>> {
        self.sources@.map_values(|v: Vec<u8>| v@).take(self.pending as int)
    }

    /// How many slots the backing storage holds, pending or not.
    pub closed spec fn storage_len(self) -> int {
        self.names@.len() as int
    }

    pub fn new(capacity: usize) -> (r: OpenBatcher)
        requires
            capacity >= 1,
        ensures
            r.wf(),
            r.cap() == capacity,
            r.queued_names() == Seq::<Seq<u8>>::empty(),
            r.queued_sources() == Seq::<Seq<u8>>::empty(),
            r.storage_len() == 0,
    {
        let r = OpenBatcher { names: Vec::new(), sources: Vec::new(), pending: 0, capacity };
        proof {
            assert(r.queued_names() =~= Seq::<Seq<u8>>::empty());
            assert(r.queued_sources() =~= Seq::<Seq<u8>>::empty());
        }
        r
    }

    /// How many candidate pairs are pending.
    pub fn pending_count(&self) -> (n: usize)
        requires
            self.wf(),
        ensures
            n == self.queued_names().len(),
    {
        self.pending
    }

    /// Whether the batch has reached its capacity, so that a flush is due
    /// before another candidate can be registered.
    pub fn is_full(&self) -> (r: bool)
        requires
            self.wf(),
        ensures
            r == (self.queued_names().len() == self.cap()),
    {
        self.pending == self.capacity
    }

    /// Occupies the next pending slot with a candidate's base name and
    /// absolute source path, growing the backing storage only when the
    /// slot has never been used before.
    pub fn register(&mut self, name: Vec<u8>, source: Vec<u8>)
        requires
            old(self).wf(),
            old(self).queued_names().len() < old(self).cap(),
        ensures
            final (self).wf(),
            final (self).cap() == old(self).cap(),
            final (self).queued_names() == old(self).queued_names().push(name@),
            final (self).queued_sources() == old(self).queued_sources().push(source@),
            final (self).storage_len() == if old(self).queued_names().len()
                == old(self).storage_len() {
                old(self).storage_len() + 1
            } else {
                old(self).storage_len()
            },
    {
        let ghost name_v = name@;
        let ghost source_v = source@;
        let idx: usize = self.pending;
        set_or_push(&mut self.names, idx, name);
        set_or_push(&mut self.sources, idx, source);
        self.pending = idx + 1;
        proof {
            assert(self.queued_names() =~= old(self).queued_names().push(name_v));
            assert(self.queued_sources() =~= old(self).queued_sources().push(source_v));
        }
    }

    /// The base name of pending slot `i`.
    pub fn name_at(&self, i: usize) -> (r: &Vec<u8>)
        requires
            self.wf(),
            i < self.queued_names().len(),
        ensures
            r@ == self.queued_names()[i as int],
    {
        &self.names[i]
    }

    /// The absolute source path of pending slot `i`.
    pub fn source_at(&self, i: usize) -> (r: &Vec<u8>)
        requires
            self.wf(),
            i < self.queued_sources().len(),
        ensures
            r@ == self.queued_sources()[i as int],
    {
        &self.sources[i]
    }

    /// Ends a flush: resets the pending counter to zero and keeps the
    /// backing storage for the next batch.
    pub fn reset(&mut self)
        requires
            old(self).wf(),
        ensures
            final (self).wf(),
            final (self).cap() == old(self).cap(),
            final (self).queued_names() == Seq::<Seq<u8>>::empty(),
            final (self).queued_sources() == Seq::<Seq<u8>>::empty(),
            final (self).storage_len() == old(self).storage_len(),
    {
        self.pending = 0;
        proof {
            assert(self.queued_names() =~= Seq::<Seq<u8>>::empty());
            assert(self.queued_sources() =~= Seq::<Seq<u8>>::empty());
        }
    }
}

/// One visited entry of the walk, as the decision kernel receives it: the
/// executable counterpart of [`EntryModel`].
pub struct WalkEntry {
    pub rel: Vec<u8>,
    pub is_file: bool,
    pub in_baseline: bool,
    pub base_hash: u64,
    pub mod_hash: u64,
}

impl WalkEntry {
    /// The entry as the model sees it.
    pub open spec fn model(self) -> EntryModel {
        EntryModel {
            rel: self.rel@,
            is_file: self.is_file,
            in_baseline: self.in_baseline,
            base_hash: self.base_hash,
            mod_hash: self.mod_hash,
        }
    }
}

/// The models of a sequence of walk entries.
pub open spec fn models(entries: Seq<WalkEntry>) -> Seq<EntryModel> {
    entries.map_values(|e: WalkEntry| e.model())
}

fn clone_entry(e: &WalkEntry) -> (r: WalkEntry)
    ensures
        r.model() == e.model(),
{
    WalkEntry {
        rel: copy_bytes(&e.rel),
        is_file: e.is_file,
        in_baseline: e.in_baseline,
        base_hash: e.base_hash,
        mod_hash: e.mod_hash,
    }
}

/// Flushes a queue of candidates: appends to `out`, in queue order, the
/// relative path of every queued candidate whose fingerprints disagree.
fn flush_into(out: &mut Vec<Vec<u8>>, queue: &Vec<WalkEntry>)
    ensures
        final (out)@.map_values(|v: Vec<u8>| v@) == old(out)@.map_values(|v: Vec<u8>| v@)
            + changed_rels(models(queue@)),
{
    let ghost base = old(out)@.map_values(|v: Vec<u8>| v@);
    let mut j: usize = 0;
    proof {
        assert(models(queue@).take(0) =~= Seq::<EntryModel>::empty());
        assert(base + changed_rels(models(queue@).take(0)) =~= base);
    }
    while j < queue.len()
        invariant
            j <= queue.len(),
            out@.map_values(|v: Vec<u8>| v@) == base + changed_rels(
                models(queue@).take(j as int),
            ),
        decreases queue.len() - j,
    {
        let q = &queue[j];
        proof {
            assert(models(queue@).take(j as int).push(queue@[j as int].model()) =~= models(
                queue@,
            ).take(j as int) + seq![queue@[j as int].model()]);
            assert(models(queue@).take(j as int + 1) =~= models(queue@).take(j as int) + seq![
                queue@[j as int].model(),
            ]);
            lemma_changed_rels_add(models(queue@).take(j as int), seq![queue@[j as int].model()]);
            lemma_changed_singleton(queue@[j as int].model());
        }
        if q.base_hash != q.mod_hash {
            let ghost before = out@.map_values(|v: Vec<u8>| v@);
            out.push(copy_bytes(&q.rel));
            proof {
                assert(out@.map_values(|v: Vec<u8>| v@) =~= before.push(queue@[j as int].rel@));
                assert(before.push(queue@[j as int].rel@) =~= base + changed_rels(
                    models(queue@).take(j as int + 1),
                ));
            }
        } else {
            proof {
                assert(changed_rels(models(queue@).take(j as int + 1)) =~= changed_rels(
                    models(queue@).take(j as int),
                ));
            }
        }
        j += 1;
    }
    proof {
        assert(models(queue@).take(queue@.len() as int) =~= models(queue@));
    }
}

/// The decision kernel of one whole run: takes the walk's entries in
/// order, with the batch capacity, and returns the relative paths that the
/// run copies, in the order the copies happen — exactly what
/// [`batched_run`] prescribes. New files are copied at once; candidates
/// are queued and flushed in batches of `cap`; the trailing partial batch
/// is flushed at the end.
pub fn run_decisions(entries: &Vec<WalkEntry>, cap: usize) -> (out: Vec<Vec<u8>>)
    requires
        cap >= 1,
    ensures
        out@.map_values(|v: Vec<u8>| v@) == batched_run(
            models(entries@),
            Seq::empty(),
            cap as int,
        ),
{
    let ghost all = models(entries@);
    let ghost total = batched_run(all, Seq::empty(), cap as int);
    let mut out: Vec<Vec<u8>> = Vec::new();
    let mut queue: Vec<WalkEntry> = Vec::new();
    let mut i: usize = 0;
    proof {
        assert(out@.map_values(|v: Vec<u8>| v@) =~= Seq::<Seq<u8>>::empty());
        assert(all.skip(0) =~= all);
        assert(models(queue@) =~= Seq::<EntryModel>::empty());
        assert(Seq::<Seq<u8>>::empty() + batched_run(all.skip(0), models(queue@), cap as int)
            =~= total);
    }
    while i < entries.len()
        invariant
            cap >= 1,
            i <= entries.len(),
            all == models(entries@),
            entries@.len() == all.len(),
            queue@.len() < cap,
            total == batched_run(all, Seq::empty(), cap as int),
            out@.map_values(|v: Vec<u8>| v@) + batched_run(
                all.skip(i as int),
                models(queue@),
                cap as int,
            ) == total,
        decreases entries.len() - i,
    {
        let e = &entries[i];
        let ghost rem = all.skip(i as int);
        let ghost qm = models(queue@);
        proof {
            assert(rem[0] == all[i as int]);
            assert(rem.first() == entries@[i as int].model());
            assert(rem.drop_first() =~= all.skip(i as int + 1));
        }
        if !e.is_file {
            proof {
                assert(batched_run(rem, qm, cap as int) == batched_run(
                    all.skip(i as int + 1),
                    qm,
                    cap as int,
                ));
            }
        } else if !e.in_baseline {
            let ghost before = out@.map_values(|v: Vec<u8>| v@);
            out.push(copy_bytes(&e.rel));
            proof {
                assert(out@.map_values(|v: Vec<u8>| v@) =~= before.push(entries@[i as int].rel@));
                assert(batched_run(rem, qm, cap as int) == seq![entries@[i as int].model().rel]
                    + batched_run(all.skip(i as int + 1), qm, cap as int));
                assert(before.push(entries@[i as int].rel@) + batched_run(
                    all.skip(i as int + 1),
                    qm,
                    cap as int,
                ) =~= before + batched_run(rem, qm, cap as int));
            }
        } else {
            let ghost em = entries@[i as int].model();
            queue.push(clone_entry(e));
            proof {
                assert(models(queue@) =~= qm.push(em));
            }
            if queue.len() >= cap {
                let ghost before = out@.map_values(|v: Vec<u8>| v@);
                flush_into(&mut out, &queue);
                queue = Vec::new();
                proof {
                    assert(models(queue@) =~= Seq::<EntryModel>::empty());
                    assert(batched_run(rem, qm, cap as int) == changed_rels(qm.push(em))
                        + batched_run(all.skip(i as int + 1), Seq::empty(), cap as int));
                    assert((before + changed_rels(qm.push(em))) + batched_run(
                        all.skip(i as int + 1),
                        models(queue@),
                        cap as int,
                    ) =~= before + batched_run(rem, qm, cap as int));
                }
            } else {
                proof {
                    assert(batched_run(rem, qm, cap as int) == batched_run(
                        all.skip(i as int + 1),
                        qm.push(em),
                        cap as int,
                    ));
                }
            }
        }
        i += 1;
    }
    proof {
        assert(all.skip(entries@.len() as int) =~= Seq::<EntryModel>::empty());
        assert(batched_run(Seq::empty(), models(queue@), cap as int) == changed_rels(
            models(queue@),
        ));
    }
    let ghost before_final = out@.map_values(|v: Vec<u8>| v@);
    flush_into(&mut out, &queue);
    proof {
        assert(before_final + changed_rels(models(queue@)) =~= total);
    }
    out
}

} // verus!
