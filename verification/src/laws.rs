//! The guarantees the registry gives across several operations, proved
//! over the abstract registry state.

use vstd::prelude::*;
use crate::record::ModelRecordView;
use crate::registry::{
    record_listed, step_fail, step_success, sweep_all, upsert_view, RegistryView,
};

verus! {

/// The registry after `n` consecutive failed probes of `id`.
pub open spec fn fail_n(v: RegistryView, id: Seq<char>, threshold: u32, n: nat) -> RegistryView
    decreases n,
{
    if n == 0 {
        v
    } else {
        fail_n(step_fail(v, id, threshold), id, threshold, (n - 1) as nat)
    }
}

/// Failed probes of an identifier that is not registered change nothing.
pub proof fn lemma_fail_n_absent(v: RegistryView, id: Seq<char>, threshold: u32, n: nat)
    requires
        !v.records.contains_key(id),
    ensures
        fail_n(v, id, threshold, n) == v,
    decreases n,
{
    if n > 0 {
        lemma_fail_n_absent(step_fail(v, id, threshold), id, threshold, (n - 1) as nat)
    }
}

/// What `n` consecutive failed probes do to a registered identifier: as
/// long as its counter stays below the threshold it keeps its record and
/// the counter grows by one per failure; once the counter reaches the
/// threshold the identifier is gone.
pub proof fn lemma_fail_n(v: RegistryView, id: Seq<char>, threshold: u32, n: nat)
    requires
        v.records.contains_key(id),
        threshold >= 1,
    ensures
        v.fails[id] + n < threshold ==> {
            &&& fail_n(v, id, threshold, n).records.contains_key(id)
            &&& fail_n(v, id, threshold, n).records[id] == v.records[id]
            &&& fail_n(v, id, threshold, n).fails[id] == v.fails[id] + n
        },
        v.fails[id] + n >= threshold && n >= 1 ==> !fail_n(
            v,
            id,
            threshold,
            n,
        ).records.contains_key(id),
    decreases n,
{
    if n >= 1 {
        let v1 = step_fail(v, id, threshold);
        if v.fails[id] + 1 >= threshold {
            assert(!v1.records.contains_key(id));
            lemma_fail_n_absent(v1, id, threshold, (n - 1) as nat);
        } else {
            assert(v1.records.contains_key(id));
            assert(v1.records[id] == v.records[id]);
            assert(v1.fails[id] == v.fails[id] + 1);
            lemma_fail_n(v1, id, threshold, (n - 1) as nat);
        }
    }
}

/// A sweep round whose only outcome is a failed probe of `id` is one
/// failed-probe step: rounds in which one backend stays unreachable chain
/// into consecutive failures, so the eviction laws below apply to them.
pub proof fn lemma_single_failure_round(v: RegistryView, id: Seq<char>, threshold: u32)
    ensures
        sweep_all(v, seq![(id, false)], threshold) == step_fail(v, id, threshold),
{
    reveal_with_fuel(sweep_all, 2);
    assert(seq![(id, false)].drop_first() =~= Seq::<(Seq<char>, bool)>::empty());
}

/// Registering the same identifier twice leaves exactly one record under
/// it, equal to the second: the double registration is the second one.
pub proof fn lemma_register_last_write_wins(
    v: RegistryView,
    id: Seq<char>,
    r1: ModelRecordView,
    r2: ModelRecordView,
)
    ensures
        upsert_view(upsert_view(v, id, r1), id, r2) == upsert_view(v, id, r2),
        upsert_view(upsert_view(v, id, r1), id, r2).records[id] == r2,
        upsert_view(upsert_view(v, id, r1), id, r2).records.dom() == v.records.dom().insert(id),
{
    let twice = upsert_view(upsert_view(v, id, r1), id, r2);
    assert(twice.records =~= upsert_view(v, id, r2).records);
    assert(twice.fails =~= upsert_view(v, id, r2).fails);
    assert(twice =~= upsert_view(v, id, r2));
    assert(twice.records.dom() =~= v.records.dom().insert(id));
}

/// An identifier registered with a fresh counter survives fewer than
/// `threshold` consecutive failed probes, record unchanged, and is evicted
/// once the failures reach the threshold.
pub proof fn lemma_eviction_at_threshold(v: RegistryView, id: Seq<char>, threshold: u32, n: nat)
    requires
        v.records.contains_key(id),
        v.fails[id] == 0,
        threshold >= 1,
    ensures
        n >= threshold ==> !fail_n(v, id, threshold, n).records.contains_key(id),
        n < threshold ==> {
            &&& fail_n(v, id, threshold, n).records.contains_key(id)
            &&& fail_n(v, id, threshold, n).records[id] == v.records[id]
        },
{
    lemma_fail_n(v, id, threshold, n);
}

/// A successful probe resets the failure counter: whatever the counter
/// held, after one success fewer than `threshold` further consecutive
/// failures never evict the identifier.
pub proof fn lemma_success_resets_counter(v: RegistryView, id: Seq<char>, threshold: u32, k: nat)
    requires
        v.records.contains_key(id),
        threshold >= 1,
        k < threshold,
    ensures
        step_success(v, id).fails[id] == 0,
        fail_n(step_success(v, id), id, threshold, k).records.contains_key(id),
        fail_n(step_success(v, id), id, threshold, k).records[id] == v.records[id],
{
    lemma_fail_n(step_success(v, id), id, threshold, k);
}

/// A registration is visible at once: the registered record stands in the
/// registry under its identifier, so the next listing snapshot, which
/// returns the record of every registered identifier, includes it.
pub proof fn lemma_register_visible(v: RegistryView, id: Seq<char>, r: ModelRecordView)
    ensures
        upsert_view(v, id, r).records.contains_pair(id, r),
        record_listed(upsert_view(v, id, r), r),
{
    assert(upsert_view(v, id, r).records.contains_pair(id, r));
}

} // verus!
