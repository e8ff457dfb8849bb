use dtn_core::{
    fetch_metadata, forwarding_batch, process_bundles, BundlePack, BundleStore, ForwardingPass,
    SchedulerState, MAX_SKIPS_BEFORE_RETRANSMISSION,
};

/// A store that answers from a fixed list of bundles and a fixed list of
/// pending identifiers, which may name bundles it no longer holds.
struct ListStore {
    bundles: Vec<BundlePack>,
    pending: Vec<String>,
}

impl BundleStore for ListStore {
    fn forwarding(&self) -> Vec<String> {
        self.pending.clone()
    }

    fn get_metadata(&self, id: &String) -> Option<BundlePack> {
        self.bundles.iter().find(|b| &b.id == id).cloned()
    }

    fn count(&self) -> u64 {
        self.bundles.len() as u64
    }

    fn all_ids(&self) -> Vec<String> {
        self.bundles.iter().map(|b| b.id.clone()).collect()
    }
}

fn pack(id: &str, creation_time: u64) -> BundlePack {
    BundlePack::new(id.to_string(), creation_time)
}

fn ids_of(batch: &[BundlePack]) -> Vec<String> {
    batch.iter().map(|b| b.id.clone()).collect()
}

fn drain(pass: &mut ForwardingPass) -> Vec<String> {
    let mut out = Vec::new();
    while let Some(b) = pass.next_bundle() {
        out.push(b.id);
    }
    out
}

#[test]
fn max_skips_is_five() {
    assert_eq!(MAX_SKIPS_BEFORE_RETRANSMISSION, 5);
}

#[test]
fn new_state_has_zero_counts_and_full_countdown() {
    let s = SchedulerState::new();
    assert_eq!(s.last_num_peers, 0);
    assert_eq!(s.last_num_bundles, 0);
    assert_eq!(s.retry_countdown, 5);
}

#[test]
fn changed_counts_proceed_and_are_recorded() {
    let mut s = SchedulerState::new();
    assert!(s.should_process(2, 3));
    assert_eq!(s, SchedulerState { last_num_peers: 2, last_num_bundles: 3, retry_countdown: 5 });
}

#[test]
fn changed_peer_count_alone_proceeds() {
    let mut s = SchedulerState { last_num_peers: 2, last_num_bundles: 3, retry_countdown: 4 };
    assert!(s.should_process(1, 3));
    assert_eq!(s, SchedulerState { last_num_peers: 1, last_num_bundles: 3, retry_countdown: 5 });
}

#[test]
fn changed_bundle_count_alone_proceeds_and_resets_countdown() {
    let mut s = SchedulerState { last_num_peers: 2, last_num_bundles: 3, retry_countdown: 2 };
    assert!(s.should_process(2, 4));
    assert_eq!(s, SchedulerState { last_num_peers: 2, last_num_bundles: 4, retry_countdown: 5 });
}

#[test]
fn unchanged_counts_skip_and_count_down() {
    let mut s = SchedulerState { last_num_peers: 2, last_num_bundles: 3, retry_countdown: 5 };
    assert!(!s.should_process(2, 3));
    assert_eq!(s, SchedulerState { last_num_peers: 2, last_num_bundles: 3, retry_countdown: 4 });
}

#[test]
fn unchanged_streak_has_one_forced_pass_in_five() {
    let mut s = SchedulerState::new();
    assert!(s.should_process(2, 3));
    let decisions: Vec<bool> = (0..10).map(|_| s.should_process(2, 3)).collect();
    assert_eq!(
        decisions,
        vec![false, false, false, false, true, false, false, false, false, true]
    );
}

#[test]
fn forced_retry_resets_countdown_and_is_not_skipped() {
    let mut s = SchedulerState { last_num_peers: 7, last_num_bundles: 9, retry_countdown: 1 };
    assert!(s.should_process(7, 9));
    assert_eq!(s, SchedulerState { last_num_peers: 7, last_num_bundles: 9, retry_countdown: 5 });
}

#[test]
fn exhausted_countdown_forces_pass() {
    let mut s = SchedulerState { last_num_peers: 0, last_num_bundles: 0, retry_countdown: 0 };
    assert!(s.should_process(0, 0));
    assert_eq!(s.retry_countdown, 5);
}

#[test]
fn fresh_node_without_peers_and_bundles_skips() {
    let mut s = SchedulerState::new();
    assert!(!s.should_process(0, 0));
    assert_eq!(s.retry_countdown, 4);
}

#[test]
fn batch_is_oldest_first() {
    let found = vec![Some(pack("A", 10)), Some(pack("B", 5)), Some(pack("C", 20))];
    let batch = forwarding_batch(found);
    assert_eq!(ids_of(&batch), vec!["B", "A", "C"]);
}

#[test]
fn batch_order_does_not_depend_on_lookup_order() {
    let orders: [[usize; 3]; 6] =
        [[0, 1, 2], [0, 2, 1], [1, 0, 2], [1, 2, 0], [2, 0, 1], [2, 1, 0]];
    let packs = [pack("t1", 1), pack("t2", 2), pack("t3", 3)];
    for order in orders {
        let found: Vec<Option<BundlePack>> =
            order.iter().map(|&i| Some(packs[i].clone())).collect();
        assert_eq!(ids_of(&forwarding_batch(found)), vec!["t1", "t2", "t3"]);
    }
}

#[test]
fn batch_omits_missing_metadata() {
    let found = vec![None, Some(pack("A", 10)), None, Some(pack("B", 5)), None];
    let batch = forwarding_batch(found);
    assert_eq!(ids_of(&batch), vec!["B", "A"]);
}

#[test]
fn batch_of_nothing_is_empty() {
    assert!(forwarding_batch(Vec::new()).is_empty());
    assert!(forwarding_batch(vec![None, None]).is_empty());
}

#[test]
fn batch_keeps_bundles_with_equal_creation_time() {
    let found = vec![Some(pack("x", 7)), Some(pack("y", 7)), Some(pack("z", 3))];
    let batch = forwarding_batch(found);
    assert_eq!(batch.len(), 3);
    assert_eq!(batch[0].id, "z");
    let mut rest = vec![batch[1].id.clone(), batch[2].id.clone()];
    rest.sort();
    assert_eq!(rest, vec!["x", "y"]);
}

#[test]
fn batch_of_many_is_sorted_and_complete() {
    let mut found = Vec::new();
    let mut x: u64 = 12345;
    for i in 0..257u64 {
        x = x.wrapping_mul(6364136223846793005).wrapping_add(1442695040888963407);
        if i % 11 == 3 {
            found.push(None);
        }
        found.push(Some(pack(&format!("b{}", i), (x >> 33) % 50)));
    }
    let mut expected: Vec<(u64, String)> = found
        .iter()
        .flatten()
        .map(|b| (b.creation_time, b.id.clone()))
        .collect();
    let batch = forwarding_batch(found);
    assert_eq!(batch.len(), 257);
    for pair in batch.windows(2) {
        assert!(pair[0].creation_time <= pair[1].creation_time);
    }
    let mut got: Vec<(u64, String)> =
        batch.iter().map(|b| (b.creation_time, b.id.clone())).collect();
    got.sort();
    expected.sort();
    assert_eq!(got, expected);
}

#[test]
fn batch_of_one_and_two() {
    assert_eq!(ids_of(&forwarding_batch(vec![Some(pack("a", 3))])), vec!["a"]);
    assert_eq!(
        ids_of(&forwarding_batch(vec![Some(pack("a", 3)), Some(pack("b", 1))])),
        vec!["b", "a"]
    );
    assert_eq!(
        ids_of(&forwarding_batch(vec![Some(pack("a", 1)), Some(pack("b", 3))])),
        vec!["a", "b"]
    );
}

#[test]
fn batch_keeps_metadata_intact() {
    let mut p = pack("A", 10);
    p.forward_pending = false;
    let batch = forwarding_batch(vec![Some(p)]);
    assert_eq!(batch[0].id, "A");
    assert_eq!(batch[0].creation_time, 10);
    assert!(!batch[0].forward_pending);
}

#[test]
fn fetch_asks_for_each_id_in_order() {
    let store = ListStore {
        bundles: vec![pack("A", 10), pack("B", 5)],
        pending: vec![],
    };
    let ids = vec!["B".to_string(), "gone".to_string(), "A".to_string()];
    let found = fetch_metadata(&store, &ids);
    assert_eq!(found.len(), 3);
    assert_eq!(found[0].as_ref().map(|b| b.creation_time), Some(5));
    assert!(found[1].is_none());
    assert_eq!(found[2].as_ref().map(|b| b.creation_time), Some(10));
}

#[test]
fn pass_runs_when_counts_changed() {
    let store = ListStore {
        bundles: vec![pack("A", 10), pack("B", 5), pack("C", 20)],
        pending: vec!["A".to_string(), "B".to_string(), "C".to_string()],
    };
    let mut state = SchedulerState::new();
    let mut pass = process_bundles(&mut state, &store, 2).expect("counts differ");
    assert_eq!(state, SchedulerState { last_num_peers: 2, last_num_bundles: 3, retry_countdown: 5 });
    assert_eq!(drain(&mut pass), vec!["B", "A", "C"]);
}

#[test]
fn pass_is_skipped_when_nothing_changed() {
    let store = ListStore {
        bundles: vec![pack("A", 10)],
        pending: vec!["A".to_string()],
    };
    let mut state = SchedulerState::new();
    assert!(process_bundles(&mut state, &store, 1).is_some());
    for left in [4usize, 3, 2, 1] {
        assert!(process_bundles(&mut state, &store, 1).is_none());
        assert_eq!(state.retry_countdown, left);
    }
    let mut forced = process_bundles(&mut state, &store, 1).expect("forced retry");
    assert_eq!(drain(&mut forced), vec!["A"]);
    assert_eq!(state.retry_countdown, 5);
}

#[test]
fn pass_tolerates_stale_ids() {
    let store = ListStore {
        bundles: vec![pack("A", 10), pack("C", 20)],
        pending: vec!["A".to_string(), "B".to_string(), "C".to_string()],
    };
    let mut state = SchedulerState::new();
    let mut pass = process_bundles(&mut state, &store, 1).expect("counts differ");
    assert_eq!(state.last_num_bundles, 3);
    assert_eq!(drain(&mut pass), vec!["A", "C"]);
}

#[test]
fn pass_without_pending_bundles_does_the_bookkeeping() {
    let store = ListStore { bundles: vec![], pending: vec![] };
    let mut state = SchedulerState { last_num_peers: 3, last_num_bundles: 0, retry_countdown: 5 };
    assert!(process_bundles(&mut state, &store, 3).is_none());
    assert_eq!(state.retry_countdown, 4);
    let mut pass = process_bundles(&mut state, &store, 4).expect("peer count changed");
    assert_eq!(pass.next_bundle().map(|b| b.id), None);
    assert_eq!(state, SchedulerState { last_num_peers: 4, last_num_bundles: 0, retry_countdown: 5 });
}

#[test]
fn new_pass_starts_at_first_bundle() {
    let pass = ForwardingPass::new(vec![pack("A", 1), pack("B", 2)]);
    assert_eq!(pass.attempted, 0);
    assert_eq!(pass.failed, 0);
    assert_eq!(pass.processed(), 0);
    assert_eq!(ids_of(&pass.batch), vec!["A", "B"]);
}

#[test]
fn pass_hands_out_each_bundle_once() {
    let mut pass = ForwardingPass::new(vec![pack("B1", 1), pack("B2", 2), pack("B3", 3)]);
    assert_eq!(pass.next_bundle().map(|b| b.id), Some("B1".to_string()));
    assert_eq!(pass.next_bundle().map(|b| b.id), Some("B2".to_string()));
    assert_eq!(pass.next_bundle().map(|b| b.id), Some("B3".to_string()));
    assert_eq!(pass.next_bundle().map(|b| b.id), None);
    assert_eq!(pass.next_bundle().map(|b| b.id), None);
    assert_eq!(pass.processed(), 3);
}

#[test]
fn failure_of_one_bundle_does_not_disturb_the_others() {
    let mut pass = ForwardingPass::new(vec![pack("B1", 1), pack("B2", 2), pack("B3", 3)]);
    let mut attempts = Vec::new();
    while let Some(b) = pass.next_bundle() {
        if b.id == "B2" {
            pass.record_failure();
        }
        attempts.push(b.id);
    }
    assert_eq!(attempts, vec!["B1", "B2", "B3"]);
    assert_eq!(pass.processed(), 3);
    assert_eq!(pass.failed, 1);
}

#[test]
fn failure_without_attempt_is_not_counted() {
    let mut pass = ForwardingPass::new(vec![pack("A", 1)]);
    pass.record_failure();
    assert_eq!(pass.failed, 0);
    assert!(pass.next_bundle().is_some());
    pass.record_failure();
    pass.record_failure();
    assert_eq!(pass.failed, 1);
    assert_eq!(pass.attempted, 1);
}

#[test]
fn bundle_pack_new_is_pending() {
    let p = BundlePack::new("id-1".to_string(), 42);
    assert_eq!(p.id(), "id-1");
    assert_eq!(p.creation_time, 42);
    assert!(p.forward_pending);
}

#[test]
fn bundle_pack_clone_is_equal() {
    let mut p = BundlePack::new("id-1".to_string(), 42);
    p.forward_pending = false;
    let q = p.clone();
    assert_eq!(q.id, "id-1");
    assert_eq!(q.creation_time, 42);
    assert!(!q.forward_pending);
}
