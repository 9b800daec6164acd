//! Aggregation of per-container samples into one value per tick.
//!
//! Each container's pipeline ends in an outcome: not the monitored
//! workload, workload but unsampled, or workload with a socket listing in
//! hand. A tick's aggregate is the sum of the outcomes' contributions; a
//! failed container contributes zero and touches nothing else.

use crate::report::spec_should_emit;
use crate::sample::{lemma_queue_bound, queue_length_from_listing, spec_queue_from_listing};
use vstd::prelude::*;
use vstd::seq_lib::group_to_multiset_ensures;

verus! {

/// What one tick's pipeline learned about one container.
#[derive(Clone)]
pub enum ContainerOutcome {
    /// The container does not run the monitored workload, or could not be
    /// inspected or classified; it contributes nothing to the tick.
    NotWorkload,
    /// The container runs the workload, but its process identifier or
    /// socket listing could not be obtained; it contributes zero.
    Unsampled,
    /// The container runs the workload and its socket listing was
    /// obtained; it contributes what the listing reports.
    Listed(String),
}

/// The backlog a single container adds to the tick's aggregate.
pub open spec fn spec_contribution(o: ContainerOutcome) -> nat {
    match o {
        ContainerOutcome::NotWorkload => 0,
        ContainerOutcome::Unsampled => 0,
        ContainerOutcome::Listed(t) => spec_queue_from_listing(t@),
    }
}

/// The aggregate of a tick: the sum of the per-container contributions, in
/// the order the enumerator produced them.
pub open spec fn spec_aggregate(os: Seq<ContainerOutcome>) -> nat
    decreases os.len(),
{
    if os.len() == 0 {
        0
    } else {
        spec_contribution(os[0]) + spec_aggregate(os.drop_first())
    }
}

/// Every single contribution fits in `u32`.
pub proof fn lemma_contribution_bound(o: ContainerOutcome)
    ensures
        spec_contribution(o) <= u32::MAX,
{
    match o {
        ContainerOutcome::Listed(t) => lemma_queue_bound(t@),
        _ => (),
    }
}

/// Computes one container's contribution to the tick.
pub fn container_contribution(o: &ContainerOutcome) -> (r: u32)
    ensures
        r as nat == spec_contribution(*o),
{
    match o {
        ContainerOutcome::NotWorkload => 0,
        ContainerOutcome::Unsampled => 0,
        ContainerOutcome::Listed(t) => queue_length_from_listing(t.as_str()),
    }
}

/// Sums the per-container outcomes of one tick into its aggregate. The
/// bound on the count of outcomes keeps the sum of `u32` contributions
/// within `u64`; a host cannot approach it.
pub fn aggregate_outcomes(os: &Vec<ContainerOutcome>) -> (r: u64)
    requires
        os@.len() <= 0xffff_ffff,
    ensures
        r as nat == spec_aggregate(os@),
{
    let mut total: u64 = 0;
    let mut i: usize = 0;
    proof {
        assert(os@.skip(0) =~= os@);
    }
    while i < os.len()
        invariant
            i <= os@.len() <= 0xffff_ffff,
            spec_aggregate(os@) == total + spec_aggregate(os@.skip(i as int)),
            total <= i * 0xffff_ffff,
        decreases os@.len() - i,
    {
        let c = container_contribution(&os[i]);
        proof {
            assert(os@.skip(i as int)[0] == os@[i as int]);
            assert(os@.skip(i as int).drop_first() =~= os@.skip(i as int + 1));
            lemma_contribution_bound(os@[i as int]);
        }
        total = total + (c as u64);
        i += 1;
    }
    proof {
        assert(os@.skip(os@.len() as int) =~= Seq::<ContainerOutcome>::empty());
    }
    total
}

/// Removing one container from a tick subtracts exactly its own
/// contribution from the aggregate.
pub proof fn lemma_aggregate_remove(os: Seq<ContainerOutcome>, i: int)
    requires
        0 <= i < os.len(),
    ensures
        spec_aggregate(os) == spec_contribution(os[i]) + spec_aggregate(os.remove(i)),
    decreases os.len(),
{
    if i == 0 {
        assert(os.remove(0) =~= os.drop_first());
    } else {
        lemma_aggregate_remove(os.drop_first(), i - 1);
        assert(os.remove(i).drop_first() =~= os.drop_first().remove(i - 1));
        assert(os.remove(i)[0] == os[0]);
    }
}

/// Zero-state idempotence: a tick in which every container contributes
/// zero has aggregate zero, and such a tick emits no metric, dry-run or
/// not.
pub proof fn lemma_zero_tick(os: Seq<ContainerOutcome>, dry_run: bool)
    requires
        forall|i: int| 0 <= i < os.len() ==> spec_contribution(#[trigger] os[i]) == 0,
    ensures
        spec_aggregate(os) == 0,
        !spec_should_emit(spec_aggregate(os) as u64, dry_run),
    decreases os.len(),
{
    if os.len() > 0 {
        assert(forall|i: int|
            0 <= i < os.drop_first().len() ==> #[trigger] os.drop_first()[i] == os[i + 1]);
        lemma_zero_tick(os.drop_first(), dry_run);
    }
}

/// Commutativity: the aggregate depends only on the multiset of
/// per-container outcomes, never on the order the enumerator listed the
/// containers in.
pub proof fn lemma_aggregate_commutes(a: Seq<ContainerOutcome>, b: Seq<ContainerOutcome>)
    requires
        a.to_multiset() == b.to_multiset(),
    ensures
        spec_aggregate(a) == spec_aggregate(b),
    decreases a.len(),
{
    broadcast use group_to_multiset_ensures;

    if a.len() == 0 {
        assert(b.to_multiset().len() == 0);
    } else {
        let x = a[0];
        assert(a.contains(x));
        assert(b.to_multiset().count(x) > 0);
        assert(b.contains(x));
        let j = choose|j: int| 0 <= j < b.len() && b[j] == x;
        assert(a.drop_first() =~= a.remove(0));
        assert(a.remove(0).to_multiset() == a.to_multiset().remove(x));
        assert(b.remove(j).to_multiset() == b.to_multiset().remove(x));
        lemma_aggregate_commutes(a.drop_first(), b.remove(j));
        lemma_aggregate_remove(b, j);
    }
}

/// Commutativity at the enumerator: when every container's outcome is a
/// function of its identifier alone, two enumerations that list the same
/// containers — in whatever orders — aggregate to the same value.
pub proof fn lemma_tick_order_independent(
    ids_a: Seq<Seq<char>>,
    ids_b: Seq<Seq<char>>,
    outcome_of: spec_fn(Seq<char>) -> ContainerOutcome,
)
    requires
        ids_a.to_multiset() == ids_b.to_multiset(),
    ensures
        spec_aggregate(ids_a.map_values(outcome_of)) == spec_aggregate(
            ids_b.map_values(outcome_of),
        ),
    decreases ids_a.len(),
{
    broadcast use group_to_multiset_ensures;

    if ids_a.len() == 0 {
        assert(ids_b.to_multiset().len() == 0);
        assert(ids_a.map_values(outcome_of) =~= Seq::<ContainerOutcome>::empty());
        assert(ids_b.map_values(outcome_of) =~= Seq::<ContainerOutcome>::empty());
    } else {
        let x = ids_a[0];
        assert(ids_a.contains(x));
        assert(ids_b.to_multiset().count(x) > 0);
        assert(ids_b.contains(x));
        let j = choose|j: int| 0 <= j < ids_b.len() && ids_b[j] == x;
        assert(ids_a.drop_first() =~= ids_a.remove(0));
        assert(ids_a.remove(0).to_multiset() == ids_a.to_multiset().remove(x));
        assert(ids_b.remove(j).to_multiset() == ids_b.to_multiset().remove(x));
        lemma_tick_order_independent(ids_a.drop_first(), ids_b.remove(j), outcome_of);
        let ma = ids_a.map_values(outcome_of);
        let mb = ids_b.map_values(outcome_of);
        lemma_aggregate_remove(mb, j);
        assert(ids_a.drop_first().map_values(outcome_of) =~= ma.drop_first());
        assert(ids_b.remove(j).map_values(outcome_of) =~= mb.remove(j));
        assert(mb[j] == outcome_of(x));
        assert(spec_aggregate(ma) == spec_contribution(ma[0]) + spec_aggregate(ma.drop_first()));
    }
}

/// Isolation: a container whose classification or sampling failed — so its
/// contribution is zero — leaves the aggregate of the remaining containers
/// exactly as it was.
pub proof fn lemma_isolation(os: Seq<ContainerOutcome>, i: int)
    requires
        0 <= i < os.len(),
        spec_contribution(os[i]) == 0,
    ensures
        spec_aggregate(os) == spec_aggregate(os.remove(i)),
{
    lemma_aggregate_remove(os, i);
}

} // verus!
