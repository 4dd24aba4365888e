use cpxor::batch::{run_decisions, OpenBatcher, WalkEntry};
use cpxor::dircache::ParentCache;
use cpxor::hash::fingerprint_bytes;
use cpxor::plan::{classify_entry, should_copy, EntryPlan};

#[test]
fn classify_ignores_non_files() {
    assert_eq!(classify_entry(false, false), EntryPlan::Ignore);
    assert_eq!(classify_entry(false, true), EntryPlan::Ignore);
}

#[test]
fn classify_copies_new_files_outright() {
    assert_eq!(classify_entry(true, false), EntryPlan::CopyNew);
}

#[test]
fn classify_queues_candidates() {
    assert_eq!(classify_entry(true, true), EntryPlan::Compare);
}

#[test]
fn should_copy_exactly_on_mismatch() {
    assert!(should_copy(1, 2));
    assert!(!should_copy(7, 7));
}

#[test]
fn batcher_fills_and_resets_reusing_slots() {
    let mut b = OpenBatcher::new(2);
    assert_eq!(b.pending_count(), 0);
    assert!(!b.is_full());
    b.register(b"f1".to_vec(), b"mod/f1".to_vec());
    assert!(!b.is_full());
    b.register(b"f2".to_vec(), b"mod/f2".to_vec());
    assert!(b.is_full());
    assert_eq!(b.pending_count(), 2);
    assert_eq!(b.name_at(0), &b"f1".to_vec());
    assert_eq!(b.source_at(0), &b"mod/f1".to_vec());
    assert_eq!(b.name_at(1), &b"f2".to_vec());
    assert_eq!(b.source_at(1), &b"mod/f2".to_vec());
    b.reset();
    assert_eq!(b.pending_count(), 0);
    assert!(!b.is_full());
    b.register(b"f3".to_vec(), b"mod/f3".to_vec());
    assert_eq!(b.name_at(0), &b"f3".to_vec());
    assert_eq!(b.source_at(0), &b"mod/f3".to_vec());
}

#[test]
fn parent_cache_reports_directory_changes() {
    let mut c = ParentCache::new();
    let a = b"mod/a".to_vec();
    let b = b"mod/b".to_vec();
    assert!(c.advance(Some(&a)));
    assert!(!c.advance(Some(&a)));
    assert!(c.advance(Some(&b)));
    assert!(!c.advance(Some(&b)));
    assert!(c.advance(Some(&a)));
}

fn example_entries() -> Vec<WalkEntry> {
    // Baseline tree: a.txt = "hello", b/c.txt = "same".
    // Modified tree: a.txt = "world", b/c.txt = "same", d.txt = "new".
    vec![
        WalkEntry {
            rel: b"a.txt".to_vec(),
            is_file: true,
            in_baseline: true,
            base_hash: fingerprint_bytes(b"hello"),
            mod_hash: fingerprint_bytes(b"world"),
        },
        WalkEntry {
            rel: b"b".to_vec(),
            is_file: false,
            in_baseline: false,
            base_hash: 0,
            mod_hash: 0,
        },
        WalkEntry {
            rel: b"b/c.txt".to_vec(),
            is_file: true,
            in_baseline: true,
            base_hash: fingerprint_bytes(b"same"),
            mod_hash: fingerprint_bytes(b"same"),
        },
        WalkEntry {
            rel: b"d.txt".to_vec(),
            is_file: true,
            in_baseline: false,
            base_hash: 0,
            mod_hash: fingerprint_bytes(b"new"),
        },
    ]
}

#[test]
fn example_scenario_copies_changed_and_new_only() {
    let out = run_decisions(&example_entries(), 1024);
    let mut sorted = out.clone();
    sorted.sort();
    assert_eq!(sorted, vec![b"a.txt".to_vec(), b"d.txt".to_vec()]);
}

#[test]
fn batch_capacity_does_not_change_the_output() {
    let entries = example_entries();
    let mut reference = run_decisions(&entries, 1);
    reference.sort();
    for cap in [2usize, 3, 4, 100, 1024] {
        let mut got = run_decisions(&entries, cap);
        got.sort();
        assert_eq!(got, reference, "capacity {}", cap);
    }
}

#[test]
fn capacity_one_flushes_every_candidate_at_once() {
    let out = run_decisions(&example_entries(), 1);
    assert_eq!(out, vec![b"a.txt".to_vec(), b"d.txt".to_vec()]);
}

#[test]
fn large_capacity_copies_new_files_before_the_final_flush() {
    let out = run_decisions(&example_entries(), 1024);
    assert_eq!(out, vec![b"d.txt".to_vec(), b"a.txt".to_vec()]);
}

#[test]
fn identical_trees_produce_no_copies() {
    let entries = vec![
        WalkEntry {
            rel: b"x.bin".to_vec(),
            is_file: true,
            in_baseline: true,
            base_hash: fingerprint_bytes(b"payload"),
            mod_hash: fingerprint_bytes(b"payload"),
        },
        WalkEntry {
            rel: b"y.bin".to_vec(),
            is_file: true,
            in_baseline: true,
            base_hash: 9,
            mod_hash: 9,
        },
    ];
    for cap in [1usize, 2, 3] {
        assert_eq!(run_decisions(&entries, cap), Vec::<Vec<u8>>::new());
    }
}

#[test]
fn empty_walk_produces_no_copies() {
    assert_eq!(run_decisions(&Vec::new(), 8), Vec::<Vec<u8>>::new());
}

#[test]
fn run_twice_with_identical_inputs_is_identical() {
    let entries = example_entries();
    assert_eq!(run_decisions(&entries, 7), run_decisions(&entries, 7));
}
