use crate::address::Address;
use crate::records::{PairModel, PairRecord, TokenInfo};
use crate::registry::{
    addresses_of, distinct_addresses, fetched_items, insert_all, lemma_fetch_failure_isolated,
    lemma_fetched_items, lemma_insert_all, lemma_insert_all_known, FetchOutcome, TokenRegistry,
};
use vstd::prelude::*;

verus! {

/// The token addresses of a batch of pair records: both tokens of each record, in batch order.
pub open spec fn batch_tokens(pairs: Seq<PairModel>) -> Seq<Seq<u8>>
    decreases pairs.len(),
{
    if pairs.len() == 0 {
        seq![]
    } else {
        batch_tokens(pairs.drop_last()).push(pairs.last().tokens().0).push(pairs.last().tokens().1)
    }
}

/// The models of a sequence of pair records.
pub open spec fn pair_models(pairs: Seq<PairRecord>) -> Seq<PairModel> {
    pairs.map_values(|p: PairRecord| p@)
}

/// One scheduling decision: `a` joins the plan unless the registry holds it or it is already planned.
pub open spec fn plan_step(registry: Seq<Seq<u8>>, plan: Seq<Seq<u8>>, a: Seq<u8>) -> Seq<Seq<u8>> {
    if registry.contains(a) || plan.contains(a) {
        plan
    } else {
        plan.push(a)
    }
}

/// The fetch plan for a sequence of token addresses: each address that the
/// registry does not hold, once, in first-seen order.
pub open spec fn plan_for(registry: Seq<Seq<u8>>, tokens: Seq<Seq<u8>>) -> Seq<Seq<u8>>
    decreases tokens.len(),
{
    if tokens.len() == 0 {
        seq![]
    } else {
        plan_step(registry, plan_for(registry, tokens.drop_last()), tokens.last())
    }
}

/// The models of a sequence of addresses.
pub open spec fn address_views(v: Seq<Address>) -> Seq<Seq<u8>> {
    v.map_values(|a: Address| a@)
}

fn plan_contains(plan: &Vec<Address>, a: &Address) -> (r: bool)
    ensures
        r == address_views(plan@).contains(a@),
{
    let mut i: usize = 0;
    while i < plan.len()
        invariant
            0 <= i <= plan@.len(),
            forall|j: int| 0 <= j < i ==> address_views(plan@)[j] != a@,
        decreases plan@.len() - i,
    {
        if plan[i] == *a {
            assert(address_views(plan@)[i as int] == a@);
            return true;
        }
        i = i + 1;
    }
    false
}

fn schedule(registry: &TokenRegistry, plan: &mut Vec<Address>, a: Address)
    ensures
        address_views(final(plan)@) == plan_step(addresses_of(registry@), address_views(old(plan)@), a@),
{
    if registry.contains(&a) {
        return;
    }
    if plan_contains(plan, &a) {
        return;
    }
    let ghost before = plan@;
    plan.push(a);
    assert(address_views(plan@) =~= address_views(before).push(a@));
}

/// Decides which token addresses of a batch need a metadata fetch: each address
/// of the batch that the registry does not hold, once, in first-seen order.
pub fn plan_fetches(registry: &TokenRegistry, pairs: &Vec<PairRecord>) -> (plan: Vec<Address>)
    ensures
        address_views(plan@) == plan_for(addresses_of(registry@), batch_tokens(pair_models(pairs@))),
{
    let ghost reg = addresses_of(registry@);
    let mut plan: Vec<Address> = Vec::new();
    let mut i: usize = 0;
    while i < pairs.len()
        invariant
            0 <= i <= pairs@.len(),
            reg == addresses_of(registry@),
            address_views(plan@) == plan_for(reg, batch_tokens(pair_models(pairs@.subrange(0, i as int)))),
        decreases pairs@.len() - i,
    {
        let ghost prev = batch_tokens(pair_models(pairs@.subrange(0, i as int)));
        let ghost next = pair_models(pairs@.subrange(0, i + 1));
        assert(next.drop_last() =~= pair_models(pairs@.subrange(0, i as int)));
        assert(next.last() == pairs@[i as int]@);
        let (a, b) = pairs[i].tokens();
        assert(batch_tokens(next) == prev.push(a@).push(b@));
        assert(prev.push(a@).push(b@).drop_last() =~= prev.push(a@));
        assert(prev.push(a@).drop_last() =~= prev);
        assert(plan_for(reg, prev.push(a@)) == plan_step(reg, plan_for(reg, prev), a@));
        assert(plan_for(reg, prev.push(a@).push(b@)) == plan_step(reg, plan_for(reg, prev.push(a@)), b@));
        schedule(registry, &mut plan, a);
        schedule(registry, &mut plan, b);
        i = i + 1;
    }
    assert(pairs@.subrange(0, pairs@.len() as int) =~= pairs@);
    plan
}

/// The plan holds no address twice; each of its addresses comes from the batch
/// and is not in the registry; each address of the batch that the registry does
/// not hold is in it. As sets: the batch's addresses minus the registry's.
pub proof fn lemma_plan_for(registry: Seq<Seq<u8>>, tokens: Seq<Seq<u8>>)
    ensures
        plan_for(registry, tokens).no_duplicates(),
        forall|j: int|
            0 <= j < plan_for(registry, tokens).len() ==> tokens.contains(
                #[trigger] plan_for(registry, tokens)[j],
            ) && !registry.contains(plan_for(registry, tokens)[j]),
        forall|k: int|
            0 <= k < tokens.len() && !registry.contains(tokens[k]) ==> plan_for(
                registry,
                tokens,
            ).contains(#[trigger] tokens[k]),
        plan_for(registry, tokens).to_set() == tokens.to_set().difference(registry.to_set()),
    decreases tokens.len(),
{
    let plan = plan_for(registry, tokens);
    if tokens.len() > 0 {
        let rest = tokens.drop_last();
        let a = tokens.last();
        lemma_plan_for(registry, rest);
        let prev = plan_for(registry, rest);
        assert forall|j: int| 0 <= j < plan.len() implies tokens.contains(#[trigger] plan[j])
            && !registry.contains(plan[j]) by {
            if j < prev.len() {
                assert(plan[j] == prev[j]);
                let i = choose|i: int| 0 <= i < rest.len() && rest[i] == prev[j];
                assert(tokens[i] == rest[i]);
            } else {
                assert(tokens[tokens.len() - 1] == a);
            }
        }
        assert forall|k: int| 0 <= k < tokens.len() && !registry.contains(tokens[k]) implies plan.contains(
            #[trigger] tokens[k],
        ) by {
            if k < tokens.len() - 1 {
                assert(rest[k] == tokens[k]);
                let j = choose|j: int| 0 <= j < prev.len() && prev[j] == tokens[k];
                assert(plan[j] == prev[j]);
            } else if !prev.contains(a) {
                assert(plan[plan.len() - 1] == a);
            }
        }
    }
    assert forall|x: Seq<u8>| plan.to_set().contains(x) <==> tokens.to_set().difference(
        registry.to_set(),
    ).contains(x) by {
        if plan.contains(x) {
            let j = choose|j: int| 0 <= j < plan.len() && plan[j] == x;
            assert(tokens.contains(plan[j]));
        }
        if tokens.contains(x) && !registry.contains(x) {
            let k = choose|k: int| 0 <= k < tokens.len() && tokens[k] == x;
            assert(plan.contains(tokens[k]));
        }
    }
    assert(plan.to_set() =~= tokens.to_set().difference(registry.to_set()));
}

/// Concurrent fetching cannot duplicate: each address of the batch that the
/// registry does not hold is scheduled exactly once, and whatever order the
/// outcomes complete in (even with an address fetched twice), the registry ends
/// with exactly one entry for each fetched address.
pub proof fn lemma_concurrent_dedup(entries: Seq<TokenInfo>, pairs: Seq<PairModel>, outcomes: Seq<FetchOutcome>)
    requires
        distinct_addresses(entries),
    ensures
        forall|k: int|
            0 <= k < batch_tokens(pairs).len() && !addresses_of(entries).contains(
                #[trigger] batch_tokens(pairs)[k],
            ) ==> exists|i: int|
                0 <= i < plan_for(addresses_of(entries), batch_tokens(pairs)).len() && plan_for(
                    addresses_of(entries),
                    batch_tokens(pairs),
                )[i] == batch_tokens(pairs)[k] && forall|j: int|
                    0 <= j < plan_for(addresses_of(entries), batch_tokens(pairs)).len() && plan_for(
                        addresses_of(entries),
                        batch_tokens(pairs),
                    )[j] == batch_tokens(pairs)[k] ==> j == i,
        forall|k: int|
            0 <= k < outcomes.len() && outcomes[k] is Fetched ==> exists|i: int|
                0 <= i < insert_all(entries, fetched_items(outcomes)).len() && addresses_of(
                    insert_all(entries, fetched_items(outcomes)),
                )[i] == #[trigger] outcomes[k]->Fetched_0.address@ && forall|j: int|
                    0 <= j < insert_all(entries, fetched_items(outcomes)).len() && addresses_of(
                        insert_all(entries, fetched_items(outcomes)),
                    )[j] == outcomes[k]->Fetched_0.address@ ==> j == i,
{
    let tokens = batch_tokens(pairs);
    let plan = plan_for(addresses_of(entries), tokens);
    lemma_plan_for(addresses_of(entries), tokens);
    assert forall|k: int| 0 <= k < tokens.len() && !addresses_of(entries).contains(
        #[trigger] tokens[k],
    ) implies exists|i: int|
        0 <= i < plan.len() && plan[i] == tokens[k] && forall|j: int|
            0 <= j < plan.len() && plan[j] == tokens[k] ==> j == i by {
        let i = choose|i: int| 0 <= i < plan.len() && plan[i] == tokens[k];
        assert forall|j: int| 0 <= j < plan.len() && plan[j] == tokens[k] implies j == i by {
            if j != i {
                assert(plan[j] != plan[i]);
            }
        }
    }
    let r = insert_all(entries, fetched_items(outcomes));
    lemma_insert_all(entries, fetched_items(outcomes));
    lemma_fetch_failure_isolated(entries, outcomes);
    assert forall|k: int| 0 <= k < outcomes.len() && outcomes[k] is Fetched implies exists|i: int|
        0 <= i < r.len() && addresses_of(r)[i] == #[trigger] outcomes[k]->Fetched_0.address@
            && forall|j: int|
            0 <= j < r.len() && addresses_of(r)[j] == outcomes[k]->Fetched_0.address@ ==> j == i by {
        let a = outcomes[k]->Fetched_0.address@;
        let i = choose|i: int| 0 <= i < addresses_of(r).len() && addresses_of(r)[i] == a;
        assert forall|j: int| 0 <= j < r.len() && addresses_of(r)[j] == a implies j == i by {
            if j != i {
                assert(addresses_of(r)[j] != addresses_of(r)[i]);
            }
        }
    }
}

/// Reconciling a batch a second time, against the registry that the first run
/// produced, schedules no fetch and leaves the registry as it is (whatever
/// outcomes for the batch's addresses it is handed), provided every fetch of
/// the first run succeeded, in any order.
pub proof fn lemma_reconcile_idempotent(
    entries: Seq<TokenInfo>,
    pairs: Seq<PairModel>,
    outcomes: Seq<FetchOutcome>,
    later: Seq<FetchOutcome>,
)
    requires
        distinct_addresses(entries),
        forall|j: int|
            0 <= j < plan_for(addresses_of(entries), batch_tokens(pairs)).len() ==> exists|k: int|
                0 <= k < outcomes.len() && outcomes[k] is Fetched && outcomes[k]->Fetched_0.address@
                    == #[trigger] plan_for(addresses_of(entries), batch_tokens(pairs))[j],
        forall|k: int|
            0 <= k < later.len() && later[k] is Fetched ==> batch_tokens(pairs).contains(
                #[trigger] later[k]->Fetched_0.address@,
            ),
    ensures
        plan_for(addresses_of(insert_all(entries, fetched_items(outcomes))), batch_tokens(pairs)).len()
            == 0,
        insert_all(insert_all(entries, fetched_items(outcomes)), fetched_items(later)) == insert_all(
            entries,
            fetched_items(outcomes),
        ),
{
    let tokens = batch_tokens(pairs);
    let reg1 = addresses_of(entries);
    let plan1 = plan_for(reg1, tokens);
    let r = insert_all(entries, fetched_items(outcomes));
    let reg2 = addresses_of(r);
    lemma_plan_for(reg1, tokens);
    lemma_plan_for(reg2, tokens);
    lemma_insert_all(entries, fetched_items(outcomes));
    lemma_fetch_failure_isolated(entries, outcomes);
    assert forall|i: int| 0 <= i < tokens.len() implies reg2.contains(#[trigger] tokens[i]) by {
        let a = tokens[i];
        if reg1.contains(a) {
            let j = choose|j: int| 0 <= j < reg1.len() && reg1[j] == a;
            assert(r.subrange(0, entries.len() as int)[j] == entries[j]);
            assert(reg2[j] == a);
        } else {
            let j = choose|j: int| 0 <= j < plan1.len() && plan1[j] == a;
            let k = choose|k: int|
                0 <= k < outcomes.len() && outcomes[k] is Fetched && outcomes[k]->Fetched_0.address@
                    == #[trigger] plan1[j];
            assert(reg2.contains(outcomes[k]->Fetched_0.address@));
        }
    }
    let plan2 = plan_for(reg2, tokens);
    if plan2.len() > 0 {
        assert(tokens.contains(plan2[0]));
    }
    let items = fetched_items(later);
    lemma_fetched_items(later);
    assert forall|j: int| 0 <= j < items.len() implies reg2.contains(#[trigger] items[j].address@) by {
        let k = choose|k: int| 0 <= k < later.len() && later[k] == FetchOutcome::Fetched(items[j]);
        assert(tokens.contains(later[k]->Fetched_0.address@));
    }
    lemma_insert_all_known(r, items);
}

/// An address whose fetch failed is not remembered as known: when it recurs in
/// a later batch, the plan over the updated registry schedules it again.
pub proof fn lemma_failed_address_planned_again(
    entries: Seq<TokenInfo>,
    outcomes: Seq<FetchOutcome>,
    pairs: Seq<PairModel>,
    a: Seq<u8>,
)
    requires
        distinct_addresses(entries),
        !addresses_of(entries).contains(a),
        forall|k: int|
            0 <= k < outcomes.len() && outcomes[k] is Fetched ==> #[trigger] outcomes[k]->Fetched_0.address@
                != a,
        batch_tokens(pairs).contains(a),
    ensures
        plan_for(addresses_of(insert_all(entries, fetched_items(outcomes))), batch_tokens(pairs)).contains(a),
{
    lemma_fetch_failure_isolated(entries, outcomes);
    let reg = addresses_of(insert_all(entries, fetched_items(outcomes)));
    lemma_plan_for(reg, batch_tokens(pairs));
    let k = choose|k: int| 0 <= k < batch_tokens(pairs).len() && batch_tokens(pairs)[k] == a;
    assert(plan_for(reg, batch_tokens(pairs)).contains(batch_tokens(pairs)[k]));
}

} // verus!
