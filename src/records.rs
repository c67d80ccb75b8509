use crate::address::Address;
use vstd::prelude::*;

verus! {

/// Metadata of one token contract, as kept in the registry.
#[derive(Debug, Clone, PartialEq)]
pub struct TokenInfo {
    pub address: Address,
    pub name: String,
    pub symbol: String,
    pub decimals: u8,
}

/// A concentrated-liquidity pool: two tokens, a 24-bit fee tier and the pool address.
#[derive(Debug, Clone, Copy, PartialEq)]
pub struct PairInfo {
    pub token_1: Address,
    pub token_2: Address,
    pub fee: u32,
    pub pair: Address,
}

/// A classic constant-product pair: two tokens and the pair address.
#[derive(Debug, Clone, Copy, PartialEq)]
pub struct CamelotPair {
    pub token_0: Address,
    pub token_1: Address,
    pub pair_address: Address,
}

/// A pair of a protocol that offers stable and volatile pools.
#[derive(Debug, Clone, Copy, PartialEq)]
pub struct VeloPair {
    pub token_1: Address,
    pub token_2: Address,
    pub stable: bool,
    pub pair: Address,
}

/// A decoded pair or pool record, tagged by protocol variant.
#[derive(Debug, Clone, Copy, PartialEq)]
pub enum PairRecord {
    Concentrated(PairInfo),
    Classic(CamelotPair),
    Stable(VeloPair),
}

/// Mathematical model of a pair record: addresses as byte sequences.
pub ghost enum PairModel {
    Concentrated { token_a: Seq<u8>, token_b: Seq<u8>, fee: nat, pair: Seq<u8> },
    Classic { token_a: Seq<u8>, token_b: Seq<u8>, pair: Seq<u8> },
    Stable { token_a: Seq<u8>, token_b: Seq<u8>, stable: bool, pair: Seq<u8> },
}

impl PairModel {
    /// The two token addresses of the record, in the order the event emitted them.
    pub open spec fn tokens(self) -> (Seq<u8>, Seq<u8>) {
        match self {
            PairModel::Concentrated { token_a, token_b, .. } => (token_a, token_b),
            PairModel::Classic { token_a, token_b, .. } => (token_a, token_b),
            PairModel::Stable { token_a, token_b, .. } => (token_a, token_b),
        }
    }
}

impl View for PairRecord {
    type V = PairModel;

    open spec fn view(&self) -> PairModel {
        match *self {
            PairRecord::Concentrated(p) => PairModel::Concentrated {
                token_a: p.token_1@,
                token_b: p.token_2@,
                fee: p.fee as nat,
                pair: p.pair@,
            },
            PairRecord::Classic(p) => PairModel::Classic {
                token_a: p.token_0@,
                token_b: p.token_1@,
                pair: p.pair_address@,
            },
            PairRecord::Stable(p) => PairModel::Stable {
                token_a: p.token_1@,
                token_b: p.token_2@,
                stable: p.stable,
                pair: p.pair@,
            },
        }
    }
}

/// Records are determined by their models.
pub proof fn lemma_pair_view_injective(r1: PairRecord, r2: PairRecord)
    requires
        r1@ == r2@,
    ensures
        r1 == r2,
{
    match (r1, r2) {
        (PairRecord::Concentrated(a), PairRecord::Concentrated(b)) => {
            assert(a.token_1.bytes == b.token_1.bytes);
            assert(a.token_2.bytes == b.token_2.bytes);
            assert(a.pair.bytes == b.pair.bytes);
        },
        (PairRecord::Classic(a), PairRecord::Classic(b)) => {
            assert(a.token_0.bytes == b.token_0.bytes);
            assert(a.token_1.bytes == b.token_1.bytes);
            assert(a.pair_address.bytes == b.pair_address.bytes);
        },
        (PairRecord::Stable(a), PairRecord::Stable(b)) => {
            assert(a.token_1.bytes == b.token_1.bytes);
            assert(a.token_2.bytes == b.token_2.bytes);
            assert(a.pair.bytes == b.pair.bytes);
        },
        _ => {},
    }
}

impl PairRecord {
    /// The two token addresses of this record.
    pub fn tokens(&self) -> (r: (Address, Address))
        ensures
            (r.0@, r.1@) == self@.tokens(),
    {
        match self {
            PairRecord::Concentrated(p) => (p.token_1, p.token_2),
            PairRecord::Classic(p) => (p.token_0, p.token_1),
            PairRecord::Stable(p) => (p.token_1, p.token_2),
        }
    }
}

} // verus!
