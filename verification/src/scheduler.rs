//! The forwarding scheduler: when to run a pass, and over which bundles in
//! which order.

use crate::bundlepack::BundlePack;
use crate::store::BundleStore;
use vstd::prelude::*;

verus! {

/// Number of consecutive invocations with unchanged peer and bundle counts
/// after which a pass is forced.
pub const MAX_SKIPS_BEFORE_RETRANSMISSION: usize = 5;

/// What the scheduler remembers from one invocation to the next.
#[derive(Clone, Copy, Debug, PartialEq, Eq, Structural)]
pub struct SchedulerState {
    /// Peer count seen by the previous invocation.
    pub last_num_peers: usize,
    /// Pending-bundle count seen by the previous invocation.
    pub last_num_bundles: usize,
    /// Invocations left, counting this one, until a pass is forced.
    pub retry_countdown: usize,
}

impl SchedulerState {
    /// The countdown is within the range the scheduler itself keeps it in.
    pub open spec fn wf(self) -> bool {
        1 <= self.retry_countdown <= MAX_SKIPS_BEFORE_RETRANSMISSION
    }

    /// The counts are the ones recorded by the previous invocation.
    pub open spec fn unchanged(self, num_peers: usize, num_bundles: usize) -> bool {
        num_peers == self.last_num_peers && num_bundles == self.last_num_bundles
    }

    /// Whether an invocation that sees these counts runs a full pass.
    ///
    /// It does when either count differs from the recorded one, and when the
    /// countdown runs out.
    pub open spec fn proceeds(self, num_peers: usize, num_bundles: usize) -> bool {
        !self.unchanged(num_peers, num_bundles) || self.retry_countdown <= 1
    }

    /// The state an invocation that sees these counts leaves behind: the
    /// counts are recorded; the countdown starts over after a full pass and
    /// drops by one otherwise.
    pub open spec fn after(self, num_peers: usize, num_bundles: usize) -> SchedulerState {
        SchedulerState {
            last_num_peers: num_peers,
            last_num_bundles: num_bundles,
            retry_countdown: if self.proceeds(num_peers, num_bundles) {
                MAX_SKIPS_BEFORE_RETRANSMISSION
            } else {
                (self.retry_countdown - 1) as usize
            },
        }
    }

    /// The state of a node that has not run a pass yet.
    pub fn new() -> (state: SchedulerState)
        ensures
            state == (SchedulerState {
                last_num_peers: 0,
                last_num_bundles: 0,
                retry_countdown: MAX_SKIPS_BEFORE_RETRANSMISSION,
            }),
            state.wf(),
    {
        SchedulerState {
            last_num_peers: 0,
            last_num_bundles: 0,
            retry_countdown: MAX_SKIPS_BEFORE_RETRANSMISSION,
        }
    }

    /// Decides whether this invocation runs a full pass and records the
    /// counts it saw.
    pub fn should_process(&mut self, num_peers: usize, num_bundles: usize) -> (proceed: bool)
        ensures
            proceed == old(self).proceeds(num_peers, num_bundles),
            *final(self) == old(self).after(num_peers, num_bundles),
            !old(self).unchanged(num_peers, num_bundles) ==> proceed
                && final(self).retry_countdown == MAX_SKIPS_BEFORE_RETRANSMISSION,
            old(self).wf() ==> final(self).wf(),
    {
        let unchanged = num_peers == self.last_num_peers && num_bundles == self.last_num_bundles;
        let proceed = !unchanged || self.retry_countdown <= 1;
        if proceed {
            self.retry_countdown = MAX_SKIPS_BEFORE_RETRANSMISSION;
        } else {
            self.retry_countdown = self.retry_countdown - 1;
        }
        self.last_num_peers = num_peers;
        self.last_num_bundles = num_bundles;
        proceed
    }
}

/// Number of full passes among `n` consecutive invocations that all see the
/// same counts, starting from `state`.
pub open spec fn passes_in_streak(
    state: SchedulerState,
    num_peers: usize,
    num_bundles: usize,
    n: nat,
) -> nat
    decreases n,
{
    if n == 0 {
        0
    } else {
        let this: nat = if state.proceeds(num_peers, num_bundles) { 1 } else { 0 };
        this + passes_in_streak(
            state.after(num_peers, num_bundles),
            num_peers,
            num_bundles,
            (n - 1) as nat,
        )
    }
}

/// While neither count changes, every run of
/// `MAX_SKIPS_BEFORE_RETRANSMISSION` consecutive invocations holds exactly
/// one full pass: the forced retry. All others in the run are skipped.
pub proof fn lemma_one_pass_per_streak(state: SchedulerState, num_peers: usize, num_bundles: usize)
    requires
        state.wf(),
        state.unchanged(num_peers, num_bundles),
    ensures
        passes_in_streak(state, num_peers, num_bundles, MAX_SKIPS_BEFORE_RETRANSMISSION as nat)
            == 1,
{
    reveal_with_fuel(passes_in_streak, 6);
}

/// Bundles are in ascending order of creation time.
pub open spec fn oldest_first(batch: Seq<BundlePack>) -> bool {
    forall|i: int, j: int|
        0 <= i <= j < batch.len() ==> batch[i].creation_time <= batch[j].creation_time
}

/// The metadata that was found, in the order of the lookups; lookups that
/// found nothing leave no trace.
pub open spec fn present(found: Seq<Option<BundlePack>>) -> Seq<BundlePack> {
    found.filter(|f: Option<BundlePack>| f is Some).map_values(|f: Option<BundlePack>| f->0)
}

/// `found` holds, identifier by identifier, what the store answered when
/// asked for the metadata of `ids`.
pub open spec fn answers<S: BundleStore>(
    store: &S,
    ids: Seq<String>,
    found: Seq<Option<BundlePack>>,
) -> bool {
    &&& found.len() == ids.len()
    &&& forall|i: int|
        0 <= i < ids.len() ==> call_ensures(S::get_metadata, (store, &ids[i]), #[trigger] found[i])
}

proof fn lemma_present_push(found: Seq<Option<BundlePack>>, last: Option<BundlePack>)
    ensures
        present(found.push(last)) == match last {
            Some(pack) => present(found).push(pack),
            None => present(found),
        },
{
    let keep = |f: Option<BundlePack>| f is Some;
    found.lemma_filter_push(last, keep);
    match last {
        Some(pack) => {
            assert(found.push(last).filter(keep) == found.filter(keep).push(last));
            assert(present(found.push(last)) =~= present(found).push(pack));
        },
        None => {},
    }
}

/// `earlier` may stand before `later` in a batch that runs oldest first,
/// or, with `ascending` unset, in one that runs youngest first.
spec fn in_age_order(earlier: BundlePack, later: BundlePack, ascending: bool) -> bool {
    if ascending {
        earlier.creation_time <= later.creation_time
    } else {
        earlier.creation_time >= later.creation_time
    }
}

/// The batch runs oldest first or, with `ascending` unset, youngest first.
spec fn ordered_by_age(batch: Seq<BundlePack>, ascending: bool) -> bool {
    forall|i: int, j: int|
        0 <= i <= j < batch.len() ==> in_age_order(batch[i], batch[j], ascending)
}

/// Merges two batches that run against the wanted direction into one that
/// runs in it, by taking from their ends.
fn merge_by_age(left: Vec<BundlePack>, right: Vec<BundlePack>, ascending: bool) -> (merged: Vec<
    BundlePack,
>)
    requires
        ordered_by_age(left@, !ascending),
        ordered_by_age(right@, !ascending),
    ensures
        ordered_by_age(merged@, ascending),
        merged@.to_multiset() == left@.to_multiset().add(right@.to_multiset()),
{
    let mut left = left;
    let mut right = right;
    let ghost all = left@.to_multiset().add(right@.to_multiset());
    let mut merged: Vec<BundlePack> = Vec::new();
    proof {
        broadcast use vstd::seq_lib::group_to_multiset_ensures;

        assert(merged@.to_multiset().add(left@.to_multiset()).add(right@.to_multiset()) =~= all);
    }
    while left.len() > 0 || right.len() > 0
        invariant
            ordered_by_age(left@, !ascending),
            ordered_by_age(right@, !ascending),
            ordered_by_age(merged@, ascending),
            forall|i: int, j: int|
                0 <= i < merged.len() && 0 <= j < left.len() ==> in_age_order(
                    merged[i],
                    left[j],
                    ascending,
                ),
            forall|i: int, j: int|
                0 <= i < merged.len() && 0 <= j < right.len() ==> in_age_order(
                    merged[i],
                    right[j],
                    ascending,
                ),
            merged@.to_multiset().add(left@.to_multiset()).add(right@.to_multiset()) == all,
        decreases left.len() + right.len(),
    {
        let from_right = if left.len() == 0 {
            true
        } else if right.len() == 0 {
            false
        } else if ascending {
            right[right.len() - 1].creation_time < left[left.len() - 1].creation_time
        } else {
            right[right.len() - 1].creation_time > left[left.len() - 1].creation_time
        };
        let ghost left_before = left@;
        let ghost right_before = right@;
        let ghost merged_before = merged@;
        let next = if from_right {
            right.pop()
        } else {
            left.pop()
        };
        if let Some(pack) = next {
            proof {
                vstd::seq_lib::to_multiset_build(merged_before, pack);
                if from_right {
                    assert(right_before =~= right@.push(pack));
                    vstd::seq_lib::to_multiset_build(right@, pack);
                } else {
                    assert(left_before =~= left@.push(pack));
                    vstd::seq_lib::to_multiset_build(left@, pack);
                }
                assert(merged_before.push(pack).to_multiset().add(left@.to_multiset()).add(
                    right@.to_multiset(),
                ) =~= merged_before.to_multiset().add(left_before.to_multiset()).add(
                    right_before.to_multiset(),
                ));
                assert forall|j: int| 0 <= j < left@.len() implies in_age_order(
                    pack,
                    left@[j],
                    ascending,
                ) by {
                    assert(left@[j] == left_before[j]);
                    assert(in_age_order(
                        left_before[j],
                        left_before[left_before.len() - 1],
                        !ascending,
                    ));
                }
                assert forall|j: int| 0 <= j < right@.len() implies in_age_order(
                    pack,
                    right@[j],
                    ascending,
                ) by {
                    assert(right@[j] == right_before[j]);
                    assert(in_age_order(
                        right_before[j],
                        right_before[right_before.len() - 1],
                        !ascending,
                    ));
                }
            }
            merged.push(pack);
        }
    }
    proof {
        broadcast use vstd::seq_lib::group_to_multiset_ensures;

        assert(left@ =~= Seq::<BundlePack>::empty());
        assert(right@ =~= Seq::<BundlePack>::empty());
        assert(merged@.to_multiset().add(left@.to_multiset()).add(right@.to_multiset())
            =~= merged@.to_multiset());
    }
    merged
}

/// Sorts a batch by creation time, oldest first or, with `ascending` unset,
/// youngest first. No bundle is lost or added.
fn sort_by_age(batch: Vec<BundlePack>, ascending: bool) -> (sorted: Vec<BundlePack>)
    ensures
        ordered_by_age(sorted@, ascending),
        sorted@.to_multiset() == batch@.to_multiset(),
    decreases batch.len(),
{
    if batch.len() <= 1 {
        return batch;
    }
    let mut left = batch;
    let right = left.split_off(left.len() / 2);
    proof {
        assert(batch@ =~= left@ + right@);
        vstd::seq_lib::lemma_multiset_commutative(left@, right@);
    }
    let left = sort_by_age(left, !ascending);
    let right = sort_by_age(right, !ascending);
    merge_by_age(left, right, ascending)
}

/// Asks the store for the metadata of each identifier, in order.
pub fn fetch_metadata<S: BundleStore>(store: &S, ids: &Vec<String>) -> (found: Vec<
    Option<BundlePack>,
>)
    ensures
        answers(store, ids@, found@),
{
    let mut found: Vec<Option<BundlePack>> = Vec::new();
    let mut i: usize = 0;
    while i < ids.len()
        invariant
            i <= ids.len(),
            found.len() == i,
            forall|k: int|
                0 <= k < i ==> call_ensures(S::get_metadata, (store, &ids[k]), #[trigger] found[k]),
        decreases ids.len() - i,
    {
        let answer = store.get_metadata(&ids[i]);
        found.push(answer);
        i = i + 1;
    }
    found
}

/// The bundles of one pass, in the order in which they are attempted: every
/// bundle whose metadata was found, oldest first. Lookups that found nothing
/// are passed over.
pub fn forwarding_batch(found: Vec<Option<BundlePack>>) -> (batch: Vec<BundlePack>)
    ensures
        oldest_first(batch@),
        batch@.to_multiset() == present(found@).to_multiset(),
{
    let mut batch: Vec<BundlePack> = Vec::new();
    proof {
        assert(present(found@.take(0)) =~= Seq::<BundlePack>::empty()) by {
            reveal(Seq::filter);
        }
    }
    for answer in it: found.into_iter()
        invariant
            it.seq() == found@,
            batch@ == present(it.seq().take(it.index())),
    {
        proof {
            let seen = it.seq().take(it.index());
            assert(it.seq().take(it.index() + 1) =~= seen.push(answer));
            lemma_present_push(seen, answer);
        }
        if let Some(pack) = answer {
            batch.push(pack);
        }
    }
    proof {
        assert(found@.take(found@.len() as int) =~= found@);
    }
    let sorted = sort_by_age(batch, true);
    proof {
        assert forall|i: int, j: int| 0 <= i <= j < sorted.len() implies sorted[i].creation_time
            <= sorted[j].creation_time by {
            assert(in_age_order(sorted[i], sorted[j], true));
        }
    }
    sorted
}

/// Bundles with different creation times can be put oldest first in one way
/// only: whatever order the store lists them in, the batch is the same.
pub proof fn lemma_oldest_first_is_unique(first: Seq<BundlePack>, second: Seq<BundlePack>)
    requires
        oldest_first(first),
        oldest_first(second),
        first.to_multiset() == second.to_multiset(),
        forall|i: int, j: int|
            0 <= i < j < first.len() ==> first[i].creation_time != first[j].creation_time,
    ensures
        first == second,
    decreases first.len(),
{
    broadcast use vstd::seq_lib::group_to_multiset_ensures;

    assert(first.len() == second.len()) by {
        vstd::seq_lib::to_multiset_len(first);
        vstd::seq_lib::to_multiset_len(second);
    }
    if first.len() > 0 {
        let n = first.len() - 1;
        assert(second.to_multiset().count(first[n]) > 0);
        let k = choose|k: int| 0 <= k < second.len() && second[k] == first[n];
        assert(first.to_multiset().count(second[n]) > 0);
        let m = choose|m: int| 0 <= m < first.len() && first[m] == second[n];
        assert(first[m].creation_time <= first[n].creation_time);
        assert(second[k].creation_time <= second[n].creation_time);
        assert(m == n);
        assert(first.drop_last() =~= first.remove(n));
        assert(second.drop_last() =~= second.remove(n));
        lemma_oldest_first_is_unique(first.drop_last(), second.drop_last());
        assert(first =~= first.drop_last().push(first[n]));
        assert(second =~= second.drop_last().push(second[n]));
    }
}

/// One forwarding pass in progress: the bundles to attempt, in order, and
/// how far the pass has come.
///
/// The driver of the pass asks for the next bundle, hands it to the
/// forwarding protocol, reports a failure if there was one, and asks again
/// until nothing is left.
#[derive(Debug)]
pub struct ForwardingPass {
    /// The bundles of this pass in the order in which they are attempted.
    pub batch: Vec<BundlePack>,
    /// How many bundles of the batch have been handed out.
    pub attempted: usize,
    /// How many of the attempts were reported as failed.
    pub failed: usize,
}

impl ForwardingPass {
    /// No more bundles were handed out than the batch holds, and no more
    /// failures counted than attempts made.
    pub open spec fn wf(self) -> bool {
        self.failed <= self.attempted <= self.batch.len()
    }

    /// The bundles that are still to be attempted, in order.
    pub open spec fn remaining(self) -> Seq<BundlePack> {
        self.batch@.skip(self.attempted as int)
    }

    /// The pass after the next bundle was handed out.
    pub open spec fn advanced(self) -> ForwardingPass {
        if self.attempted < self.batch.len() {
            ForwardingPass { attempted: (self.attempted + 1) as usize, ..self }
        } else {
            self
        }
    }

    /// The pass after a failure was reported. A report that no attempt
    /// stands for is not counted.
    pub open spec fn with_failure(self) -> ForwardingPass {
        if self.failed < self.attempted {
            ForwardingPass { failed: (self.failed + 1) as usize, ..self }
        } else {
            self
        }
    }

    /// A pass over `batch` of which nothing has been attempted yet.
    pub fn new(batch: Vec<BundlePack>) -> (pass: ForwardingPass)
        ensures
            pass == (ForwardingPass { batch, attempted: 0, failed: 0 }),
            pass.wf(),
    {
        ForwardingPass { batch, attempted: 0, failed: 0 }
    }

    /// Hands out the next bundle to attempt, or `None` once every bundle of
    /// the batch has been handed out.
    pub fn next_bundle(&mut self) -> (next: Option<BundlePack>)
        ensures
            *final(self) == old(self).advanced(),
            next == if old(self).attempted < old(self).batch.len() {
                Some(old(self).batch[old(self).attempted as int])
            } else {
                None
            },
            old(self).wf() ==> final(self).wf(),
    {
        if self.attempted < self.batch.len() {
            let pack = self.batch[self.attempted].clone();
            self.attempted = self.attempted + 1;
            Some(pack)
        } else {
            None
        }
    }

    /// Notes that the last attempt failed. The bundles still to be attempted
    /// are not affected.
    pub fn record_failure(&mut self)
        ensures
            *final(self) == old(self).with_failure(),
            final(self).remaining() == old(self).remaining(),
            old(self).wf() ==> final(self).wf(),
    {
        if self.failed < self.attempted {
            self.failed = self.failed + 1;
        }
    }

    /// Number of bundles handed out so far.
    pub fn processed(&self) -> (n: usize)
        ensures
            n == self.attempted,
    {
        self.attempted
    }
}

/// The bundles that are handed out when `pass` is driven to its end and the
/// attempts fail as `failures` says: attempt `k` from here on fails when
/// `failures[k]` is set, and succeeds when it is unset or `failures` is
/// shorter than that.
pub open spec fn attempts(pass: ForwardingPass, failures: Seq<bool>) -> Seq<BundlePack>
    decreases pass.batch.len() - pass.attempted,
{
    if pass.attempted < pass.batch.len() {
        let handed = pass.advanced();
        let reported = if failures.len() > 0 && failures[0] {
            handed.with_failure()
        } else {
            handed
        };
        seq![pass.batch[pass.attempted as int]] + attempts(reported, failures.skip(1))
    } else {
        Seq::empty()
    }
}

/// However the attempts of a pass turn out, each bundle that was still to be
/// attempted is handed out exactly once, in order: a failure neither ends the
/// pass nor repeats or skips a bundle.
pub proof fn lemma_failures_do_not_disturb_pass(pass: ForwardingPass, failures: Seq<bool>)
    requires
        pass.wf(),
    ensures
        attempts(pass, failures) == pass.remaining(),
    decreases pass.batch.len() - pass.attempted,
{
    if pass.attempted < pass.batch.len() {
        let handed = pass.advanced();
        let reported = if failures.len() > 0 && failures[0] {
            handed.with_failure()
        } else {
            handed
        };
        lemma_failures_do_not_disturb_pass(reported, failures.skip(1));
        assert(pass.remaining() =~= seq![pass.batch[pass.attempted as int]]
            + reported.remaining());
    } else {
        assert(pass.remaining() =~= Seq::<BundlePack>::empty());
    }
}

/// What one invocation of the scheduler does, given the pending identifiers
/// `ids` that the store listed: the state records the counts, and a pass is
/// planned exactly when the throttle lets the invocation proceed. The pass
/// starts at its first bundle and holds, oldest first, the bundles whose
/// metadata the store still had.
pub open spec fn invocation<S: BundleStore>(
    store: &S,
    before: SchedulerState,
    num_peers: usize,
    ids: Vec<String>,
    after: SchedulerState,
    pass: Option<ForwardingPass>,
) -> bool {
    &&& after == before.after(num_peers, ids.len())
    &&& pass is Some <==> before.proceeds(num_peers, ids.len())
    &&& pass matches Some(p) ==> {
        &&& p.attempted == 0
        &&& p.failed == 0
        &&& oldest_first(p.batch@)
        &&& exists|found: Seq<Option<BundlePack>>| #[trigger]
            answers(store, ids@, found) && p.batch@.to_multiset() == present(found).to_multiset()
    }
}

/// Runs the scheduler once: lists the pending bundles, decides whether a
/// pass is due, and if so plans it.
///
/// Returns `None` when the invocation is skipped. Otherwise the returned pass
/// holds the bundles to hand to the forwarding protocol, one after the
/// other.
pub fn process_bundles<S: BundleStore>(
    state: &mut SchedulerState,
    store: &S,
    num_peers: usize,
) -> (pass: Option<ForwardingPass>)
    ensures
        exists|ids: Vec<String>| #[trigger]
            call_ensures(S::forwarding, (store,), ids) && invocation(
                store,
                *old(state),
                num_peers,
                ids,
                *final(state),
                pass,
            ),
        old(state).wf() ==> final(state).wf(),
{
    let forwarding_bids = store.forwarding();
    let num_bundles: usize = forwarding_bids.len();
    if !state.should_process(num_peers, num_bundles) {
        proof {
            assert(invocation(store, *old(state), num_peers, forwarding_bids, *state, None));
        }
        return None;
    }
    let found = fetch_metadata(store, &forwarding_bids);
    let ghost answered = found@;
    let pass = ForwardingPass::new(forwarding_batch(found));
    proof {
        assert(answers(store, forwarding_bids@, answered));
        assert(invocation(store, *old(state), num_peers, forwarding_bids, *state, Some(pass)));
    }
    Some(pass)
}

} // verus!
