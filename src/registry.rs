use crate::address::Address;
use crate::records::TokenInfo;
use vstd::prelude::*;

verus! {

/// The addresses of a sequence of registry entries, in order.
pub open spec fn addresses_of(entries: Seq<TokenInfo>) -> Seq<Seq<u8>> {
    entries.map_values(|t: TokenInfo| t.address@)
}

/// No two entries share an address.
pub open spec fn distinct_addresses(entries: Seq<TokenInfo>) -> bool {
    addresses_of(entries).no_duplicates()
}

/// `entries` with `t` appended, unless its address is already present.
pub open spec fn insert_new(entries: Seq<TokenInfo>, t: TokenInfo) -> Seq<TokenInfo> {
    if addresses_of(entries).contains(t.address@) {
        entries
    } else {
        entries.push(t)
    }
}

/// `entries` followed by each item of `items` whose address was not present before it.
pub open spec fn insert_all(entries: Seq<TokenInfo>, items: Seq<TokenInfo>) -> Seq<TokenInfo>
    decreases items.len(),
{
    if items.len() == 0 {
        entries
    } else {
        insert_new(insert_all(entries, items.drop_last()), items.last())
    }
}

/// The result of reading one token's metadata.
#[derive(Debug, Clone)]
pub enum FetchOutcome {
    /// The metadata was read.
    Fetched(TokenInfo),
    /// The read failed for this address; it is left for a later run.
    Failed(Address),
}

/// The metadata carried by the successful outcomes, in order.
pub open spec fn fetched_items(outcomes: Seq<FetchOutcome>) -> Seq<TokenInfo>
    decreases outcomes.len(),
{
    if outcomes.len() == 0 {
        seq![]
    } else {
        let prev = fetched_items(outcomes.drop_last());
        match outcomes.last() {
            FetchOutcome::Fetched(t) => prev.push(t),
            FetchOutcome::Failed(_) => prev,
        }
    }
}

/// The addresses of the failed outcomes, in order.
pub open spec fn failed_addresses(outcomes: Seq<FetchOutcome>) -> Seq<Seq<u8>>
    decreases outcomes.len(),
{
    if outcomes.len() == 0 {
        seq![]
    } else {
        let prev = failed_addresses(outcomes.drop_last());
        match outcomes.last() {
            FetchOutcome::Fetched(_) => prev,
            FetchOutcome::Failed(a) => prev.push(a@),
        }
    }
}

/// The addresses that applying `outcomes` to `entries` appends, in order.
pub open spec fn added_addresses(entries: Seq<TokenInfo>, outcomes: Seq<FetchOutcome>) -> Seq<Seq<u8>> {
    addresses_of(insert_all(entries, fetched_items(outcomes))).subrange(
        entries.len() as int,
        insert_all(entries, fetched_items(outcomes)).len() as int,
    )
}

/// What applying a batch of fetch outcomes added and what it left out.
#[derive(Debug, Clone)]
pub struct FetchReport {
    /// Addresses appended to the registry, in the order they were appended.
    pub added: Vec<Address>,
    /// Addresses whose metadata could not be read.
    pub failed: Vec<Address>,
}

/// The token registry: metadata entries in order, no two with one address.
#[derive(Debug)]
pub struct TokenRegistry {
    entries: Vec<TokenInfo>,
}

impl View for TokenRegistry {
    type V = Seq<TokenInfo>;

    closed spec fn view(&self) -> Seq<TokenInfo> {
        self.entries@
    }
}

impl TokenRegistry {
    /// No two entries share an address.
    #[verifier::type_invariant]
    spec fn inv(&self) -> bool {
        distinct_addresses(self.entries@)
    }

    /// An empty registry.
    pub fn new() -> (r: TokenRegistry)
        ensures
            r@ == Seq::<TokenInfo>::empty(),
    {
        let r = TokenRegistry { entries: Vec::new() };
        assert(addresses_of(r@) =~= Seq::<Seq<u8>>::empty());
        r
    }

    /// A registry of the loaded entries; of entries that share an address the first is kept.
    pub fn from_entries(entries: Vec<TokenInfo>) -> (r: TokenRegistry)
        ensures
            r@ == insert_all(Seq::empty(), entries@),
            distinct_addresses(r@),
    {
        let mut r = TokenRegistry::new();
        let mut i: usize = 0;
        while i < entries.len()
            invariant
                0 <= i <= entries@.len(),
                r@ == insert_all(Seq::empty(), entries@.subrange(0, i as int)),
            decreases entries@.len() - i,
        {
            assert(entries@.subrange(0, i + 1).drop_last() =~= entries@.subrange(0, i as int));
            r.insert(entries[i].clone_info());
            i = i + 1;
        }
        assert(entries@.subrange(0, entries@.len() as int) =~= entries@);
        proof {
            use_type_invariant(&r);
        }
        r
    }

    /// The entries in order.
    pub fn entries(&self) -> (r: &Vec<TokenInfo>)
        ensures
            r@ == self@,
    {
        &self.entries
    }

    /// Number of entries.
    pub fn len(&self) -> (r: usize)
        ensures
            r == self@.len(),
    {
        self.entries.len()
    }

    /// Whether an entry has address `a`.
    pub fn contains(&self, a: &Address) -> (r: bool)
        ensures
            r == addresses_of(self@).contains(a@),
    {
        let mut i: usize = 0;
        while i < self.entries.len()
            invariant
                0 <= i <= self@.len(),
                forall|j: int| 0 <= j < i ==> addresses_of(self@)[j] != a@,
            decreases self@.len() - i,
        {
            if self.entries[i].address == *a {
                assert(addresses_of(self@)[i as int] == a@);
                return true;
            }
            i = i + 1;
        }
        false
    }

    /// Appends `t` unless its address is already present; says whether it did.
    pub fn insert(&mut self, t: TokenInfo) -> (added: bool)
        ensures
            distinct_addresses(final(self)@),
            added == !addresses_of(old(self)@).contains(t.address@),
            final(self)@ == insert_new(old(self)@, t),
    {
        proof {
            use_type_invariant(&*self);
        }
        if self.contains(&t.address) {
            return false;
        }
        let ghost before = self@;
        proof {
            lemma_insert_new_distinct(before, t);
        }
        let mut entries: Vec<TokenInfo> = Vec::new();
        std::mem::swap(&mut self.entries, &mut entries);
        entries.push(t);
        self.entries = entries;
        true
    }

    /// Applies the outcomes of a fetch phase, in the order they completed:
    /// each fetched token whose address is not yet present is appended, and
    /// each failed address is reported and left out.
    pub fn apply_fetches(&mut self, outcomes: &Vec<FetchOutcome>) -> (r: FetchReport)
        ensures
            distinct_addresses(final(self)@),
            final(self)@ == insert_all(old(self)@, fetched_items(outcomes@)),
            r.added@.map_values(|a: Address| a@) == added_addresses(old(self)@, outcomes@),
            r.failed@.map_values(|a: Address| a@) == failed_addresses(outcomes@),
    {
        proof {
            use_type_invariant(&*self);
        }
        let ghost start = self@;
        let mut added: Vec<Address> = Vec::new();
        let mut failed: Vec<Address> = Vec::new();
        let mut i: usize = 0;
        while i < outcomes.len()
            invariant
                0 <= i <= outcomes@.len(),
                distinct_addresses(self@),
                self@ == insert_all(start, fetched_items(outcomes@.subrange(0, i as int))),
                start.len() <= self@.len(),
                self@.subrange(0, start.len() as int) == start,
                added@.map_values(|a: Address| a@) == addresses_of(self@).subrange(
                    start.len() as int,
                    self@.len() as int,
                ),
                failed@.map_values(|a: Address| a@) == failed_addresses(outcomes@.subrange(0, i as int)),
            decreases outcomes@.len() - i,
        {
            let ghost prefix = outcomes@.subrange(0, i + 1);
            assert(prefix.drop_last() =~= outcomes@.subrange(0, i as int));
            assert(prefix.last() == outcomes@[i as int]);
            let ghost before = self@;
            let ghost old_added = added@;
            let ghost old_failed = failed@;
            match &outcomes[i] {
                FetchOutcome::Fetched(t) => {
                    let ghost items = fetched_items(outcomes@.subrange(0, i as int));
                    assert(fetched_items(prefix) == items.push(*t));
                    assert(items.push(*t).drop_last() =~= items);
                    let a = t.address;
                    if self.insert(t.clone_info()) {
                        added.push(a);
                        assert(addresses_of(self@).subrange(start.len() as int, self@.len() as int)
                            =~= addresses_of(before).subrange(start.len() as int, before.len() as int).push(a@));
                        assert(added@.map_values(|x: Address| x@) =~= old_added.map_values(|x: Address| x@).push(a@));
                    }
                    assert(self@.subrange(0, start.len() as int) =~= before.subrange(0, start.len() as int));
                },
                FetchOutcome::Failed(a) => {
                    assert(fetched_items(prefix) == fetched_items(outcomes@.subrange(0, i as int)));
                    failed.push(*a);
                    assert(failed@.map_values(|x: Address| x@) =~= old_failed.map_values(|x: Address| x@).push(a@));
                },
            }
            i = i + 1;
        }
        assert(outcomes@.subrange(0, outcomes@.len() as int) =~= outcomes@);
        FetchReport { added, failed }
    }

    /// The entries, giving up the registry.
    pub fn into_entries(self) -> (r: Vec<TokenInfo>)
        ensures
            r@ == self@,
    {
        self.entries
    }
}

impl TokenInfo {
    /// A copy of this entry.
    pub fn clone_info(&self) -> (r: TokenInfo)
        ensures
            r == *self,
    {
        TokenInfo {
            address: self.address,
            name: self.name.clone(),
            symbol: self.symbol.clone(),
            decimals: self.decimals,
        }
    }
}

/// Appending an entry whose address is new keeps the addresses distinct.
pub proof fn lemma_insert_new_distinct(entries: Seq<TokenInfo>, t: TokenInfo)
    requires
        distinct_addresses(entries),
    ensures
        distinct_addresses(insert_new(entries, t)),
        addresses_of(insert_new(entries, t)).contains(t.address@),
{
    if !addresses_of(entries).contains(t.address@) {
        assert(addresses_of(entries.push(t)) =~= addresses_of(entries).push(t.address@));
    } else {
    }
    let r = insert_new(entries, t);
    if !addresses_of(entries).contains(t.address@) {
        assert(addresses_of(r)[r.len() - 1] == t.address@);
    }
}

/// Facts about `insert_all` on a registry whose addresses are distinct: the
/// addresses stay distinct, the old entries stay in front, every inserted item's
/// address is present, and every present address came from one of the two.
pub proof fn lemma_insert_all(entries: Seq<TokenInfo>, items: Seq<TokenInfo>)
    requires
        distinct_addresses(entries),
    ensures
        distinct_addresses(insert_all(entries, items)),
        entries.len() <= insert_all(entries, items).len(),
        insert_all(entries, items).subrange(0, entries.len() as int) == entries,
        forall|k: int|
            0 <= k < items.len() ==> addresses_of(insert_all(entries, items)).contains(
                #[trigger] items[k].address@,
            ),
        forall|a: Seq<u8>|
            #[trigger] addresses_of(insert_all(entries, items)).contains(a) ==> addresses_of(
                entries,
            ).contains(a) || exists|k: int| 0 <= k < items.len() && items[k].address@ == a,
    decreases items.len(),
{
    if items.len() == 0 {
        assert(entries.subrange(0, entries.len() as int) =~= entries);
    } else {
        let rest = items.drop_last();
        let t = items.last();
        lemma_insert_all(entries, rest);
        let prev = insert_all(entries, rest);
        let r = insert_all(entries, items);
        assert(r == insert_new(prev, t));
        lemma_insert_new_distinct(prev, t);
        if !addresses_of(prev).contains(t.address@) {
            assert(r.subrange(0, entries.len() as int) =~= prev.subrange(0, entries.len() as int));
            assert(addresses_of(r) =~= addresses_of(prev).push(t.address@));
        }
        assert forall|k: int| 0 <= k < items.len() implies addresses_of(r).contains(
            #[trigger] items[k].address@,
        ) by {
            if k < items.len() - 1 {
                assert(rest[k] == items[k]);
                let j = choose|j: int| 0 <= j < addresses_of(prev).len() && addresses_of(prev)[j] == items[k].address@;
                if !addresses_of(prev).contains(t.address@) {
                    assert(addresses_of(r)[j] == items[k].address@);
                }
            }
        }
        assert forall|a: Seq<u8>| #[trigger] addresses_of(r).contains(a) implies addresses_of(
            entries,
        ).contains(a) || exists|k: int| 0 <= k < items.len() && items[k].address@ == a by {
            let j = choose|j: int| 0 <= j < addresses_of(r).len() && addresses_of(r)[j] == a;
            if j < prev.len() {
                assert(r[j] == prev[j]);
                assert(addresses_of(prev)[j] == a);
                assert(addresses_of(prev).contains(a));
                if !addresses_of(entries).contains(a) {
                    let k = choose|k: int| 0 <= k < rest.len() && rest[k].address@ == a;
                    assert(items[k] == rest[k]);
                }
            } else {
                assert(items[items.len() - 1].address@ == a);
            }
        }
    }
}

/// The successful outcomes are exactly the items of `fetched_items`.
pub proof fn lemma_fetched_items(outcomes: Seq<FetchOutcome>)
    ensures
        forall|k: int|
            0 <= k < outcomes.len() && outcomes[k] is Fetched ==> fetched_items(outcomes).contains(
                #[trigger] outcomes[k]->Fetched_0,
            ),
        forall|j: int|
            0 <= j < fetched_items(outcomes).len() ==> exists|k: int|
                0 <= k < outcomes.len() && outcomes[k] == FetchOutcome::Fetched(
                    #[trigger] fetched_items(outcomes)[j],
                ),
    decreases outcomes.len(),
{
    if outcomes.len() > 0 {
        let rest = outcomes.drop_last();
        lemma_fetched_items(rest);
        let prev = fetched_items(rest);
        let f = fetched_items(outcomes);
        assert forall|k: int|
            0 <= k < outcomes.len() && outcomes[k] is Fetched implies f.contains(
                #[trigger] outcomes[k]->Fetched_0,
            ) by {
            if k < outcomes.len() - 1 {
                assert(rest[k] == outcomes[k]);
                let j = choose|j: int| 0 <= j < prev.len() && prev[j] == rest[k]->Fetched_0;
                assert(f[j] == prev[j]);
            } else {
                assert(f[f.len() - 1] == outcomes[k]->Fetched_0);
            }
        }
        assert forall|j: int| 0 <= j < f.len() implies exists|k: int|
            0 <= k < outcomes.len() && outcomes[k] == FetchOutcome::Fetched(#[trigger] f[j]) by {
            if j < prev.len() {
                assert(f[j] == prev[j]);
                let k = choose|k: int| 0 <= k < rest.len() && rest[k] == FetchOutcome::Fetched(prev[j]);
                assert(outcomes[k] == rest[k]);
            } else {
                assert(outcomes[outcomes.len() - 1] == FetchOutcome::Fetched(f[j]));
            }
        }
    }
}

/// Applying fetch outcomes, in any order, to a registry without repeated
/// addresses leaves a registry without repeated addresses.
pub proof fn lemma_registry_stays_distinct(entries: Seq<TokenInfo>, outcomes: Seq<FetchOutcome>)
    requires
        distinct_addresses(entries),
    ensures
        distinct_addresses(insert_all(entries, fetched_items(outcomes))),
{
    lemma_insert_all(entries, fetched_items(outcomes));
}

/// A failed fetch does not hold back the others: every fetched token's address
/// ends up in the registry, and a new address with no successful outcome stays
/// out of it (so it is not among the added entries either).
pub proof fn lemma_fetch_failure_isolated(entries: Seq<TokenInfo>, outcomes: Seq<FetchOutcome>)
    requires
        distinct_addresses(entries),
    ensures
        forall|k: int|
            0 <= k < outcomes.len() && outcomes[k] is Fetched ==> addresses_of(
                insert_all(entries, fetched_items(outcomes)),
            ).contains(#[trigger] outcomes[k]->Fetched_0.address@),
        forall|a: Seq<u8>|
            !addresses_of(entries).contains(a) && (forall|k: int|
                0 <= k < outcomes.len() && outcomes[k] is Fetched ==> #[trigger] outcomes[k]->Fetched_0.address@
                    != a) ==> !#[trigger] addresses_of(
                insert_all(entries, fetched_items(outcomes)),
            ).contains(a),
{
    let items = fetched_items(outcomes);
    lemma_insert_all(entries, items);
    lemma_fetched_items(outcomes);
    assert forall|k: int|
        0 <= k < outcomes.len() && outcomes[k] is Fetched implies addresses_of(
            insert_all(entries, items),
        ).contains(#[trigger] outcomes[k]->Fetched_0.address@) by {
        let j = choose|j: int| 0 <= j < items.len() && items[j] == outcomes[k]->Fetched_0;
        assert(addresses_of(insert_all(entries, items)).contains(items[j].address@));
    }
    assert forall|a: Seq<u8>|
        !addresses_of(entries).contains(a) && (forall|k: int|
            0 <= k < outcomes.len() && outcomes[k] is Fetched ==> #[trigger] outcomes[k]->Fetched_0.address@
                != a) implies !#[trigger] addresses_of(insert_all(entries, items)).contains(a) by {
        if addresses_of(insert_all(entries, items)).contains(a) {
            let j = choose|j: int| 0 <= j < items.len() && items[j].address@ == a;
            let k = choose|k: int| 0 <= k < outcomes.len() && outcomes[k] == FetchOutcome::Fetched(items[j]);
            assert(outcomes[k]->Fetched_0.address@ == a);
        }
    }
}

/// Inserting items whose addresses are all present changes nothing.
pub proof fn lemma_insert_all_known(entries: Seq<TokenInfo>, items: Seq<TokenInfo>)
    requires
        forall|j: int| 0 <= j < items.len() ==> addresses_of(entries).contains(#[trigger] items[j].address@),
    ensures
        insert_all(entries, items) == entries,
    decreases items.len(),
{
    if items.len() > 0 {
        let rest = items.drop_last();
        assert forall|j: int| 0 <= j < rest.len() implies addresses_of(entries).contains(
            #[trigger] rest[j].address@,
        ) by {
            assert(rest[j] == items[j]);
        }
        lemma_insert_all_known(entries, rest);
        assert(addresses_of(entries).contains(items[items.len() - 1].address@));
    }
}

/// The added set of a fetch phase: it holds every successfully fetched address
/// that was new, only new addresses, and no address whose fetch never succeeded.
pub proof fn lemma_added_set(entries: Seq<TokenInfo>, outcomes: Seq<FetchOutcome>)
    requires
        distinct_addresses(entries),
    ensures
        forall|k: int|
            0 <= k < outcomes.len() && outcomes[k] is Fetched && !addresses_of(entries).contains(
                outcomes[k]->Fetched_0.address@,
            ) ==> added_addresses(entries, outcomes).contains(
                #[trigger] outcomes[k]->Fetched_0.address@,
            ),
        forall|a: Seq<u8>|
            #[trigger] added_addresses(entries, outcomes).contains(a) ==> !addresses_of(entries).contains(a),
        forall|a: Seq<u8>|
            (forall|k: int|
                0 <= k < outcomes.len() && outcomes[k] is Fetched ==> #[trigger] outcomes[k]->Fetched_0.address@
                    != a) ==> !#[trigger] added_addresses(entries, outcomes).contains(a),
{
    let items = fetched_items(outcomes);
    let r = insert_all(entries, items);
    let n = entries.len() as int;
    let added = added_addresses(entries, outcomes);
    lemma_insert_all(entries, items);
    lemma_fetch_failure_isolated(entries, outcomes);
    lemma_fetched_items(outcomes);
    assert forall|a: Seq<u8>| #[trigger] added.contains(a) implies !addresses_of(entries).contains(a) by {
        let i = choose|i: int| 0 <= i < added.len() && added[i] == a;
        assert(addresses_of(r)[n + i] == a);
        if addresses_of(entries).contains(a) {
            let j = choose|j: int| 0 <= j < n && addresses_of(entries)[j] == a;
            assert(r.subrange(0, n)[j] == entries[j]);
            assert(addresses_of(r)[j] == a);
        }
    }
    assert forall|k: int|
        0 <= k < outcomes.len() && outcomes[k] is Fetched && !addresses_of(entries).contains(
            outcomes[k]->Fetched_0.address@,
        ) implies added.contains(#[trigger] outcomes[k]->Fetched_0.address@) by {
        let a = outcomes[k]->Fetched_0.address@;
        let i = choose|i: int| 0 <= i < addresses_of(r).len() && addresses_of(r)[i] == a;
        if i < n {
            assert(r.subrange(0, n)[i] == entries[i]);
            assert(addresses_of(entries)[i] == a);
        } else {
            assert(added[i - n] == a);
        }
    }
    assert forall|a: Seq<u8>|
        (forall|k: int|
            0 <= k < outcomes.len() && outcomes[k] is Fetched ==> #[trigger] outcomes[k]->Fetched_0.address@
                != a) implies !#[trigger] added.contains(a) by {
        if added.contains(a) {
            let i = choose|i: int| 0 <= i < added.len() && added[i] == a;
            assert(addresses_of(r)[n + i] == a);
            assert(addresses_of(r).contains(a));
            if !addresses_of(entries).contains(a) {
                let j = choose|j: int| 0 <= j < items.len() && items[j].address@ == a;
                let k = choose|k: int| 0 <= k < outcomes.len() && outcomes[k] == FetchOutcome::Fetched(items[j]);
                assert(outcomes[k]->Fetched_0.address@ == a);
            }
        }
    }
}

} // verus!
