use crate::address::Address;
use crate::records::{CamelotPair, PairInfo, PairModel, PairRecord, VeloPair};
use vstd::prelude::*;

verus! {

/// One raw event log entry: indexed 32-byte topics and an opaque data payload.
#[derive(Debug, Clone)]
pub struct RawLogEntry {
    pub topics: Vec<[u8; 32]>,
    pub data: Vec<u8>,
    pub block_number: Option<u64>,
}

impl RawLogEntry {
    /// The topics as byte sequences.
    pub open spec fn topics_view(&self) -> Seq<Seq<u8>> {
        self.topics@.map_values(|t: [u8; 32]| t@)
    }
}

/// The protocol variant whose event layout a log entry follows.
#[derive(Debug, Clone, Copy, PartialEq, Eq, Structural)]
pub enum Protocol {
    /// `PoolCreated(address indexed, address indexed, uint24 indexed fee, int24, address)`.
    Concentrated,
    /// `PairCreated(address indexed, address indexed, address, uint256)`.
    Classic,
    /// `PairCreated(address indexed, address indexed, bool, address, uint256)`.
    Stable,
}

/// Why a log entry does not decode to a record.
#[derive(Debug, Clone, Copy, PartialEq, Eq, Structural)]
pub enum DecodeError {
    /// The number of topics differs from the variant's indexed-field count.
    WrongTopicCount,
    /// The data payload is shorter than the variant's field layout needs.
    PayloadTooShort,
    /// Both token topics name the same address.
    IdenticalTokens,
}

impl Protocol {
    /// Topics the event carries: the signature hash plus one per indexed field.
    pub open spec fn topic_count(self) -> nat {
        match self {
            Protocol::Concentrated => 4,
            Protocol::Classic => 3,
            Protocol::Stable => 3,
        }
    }

    /// Byte offset of the pair address in the data payload (right-aligned in its slot).
    pub open spec fn pair_offset(self) -> nat {
        match self {
            Protocol::Concentrated => 44,
            Protocol::Classic => 12,
            Protocol::Stable => 44,
        }
    }

    /// Payload bytes the layout needs: up to the end of the pair address slot.
    pub open spec fn min_data_len(self) -> nat {
        self.pair_offset() + 20
    }

    /// Executable form of `topic_count`.
    pub fn expected_topics(self) -> (r: usize)
        ensures
            r == self.topic_count(),
    {
        match self {
            Protocol::Concentrated => 4,
            Protocol::Classic => 3,
            Protocol::Stable => 3,
        }
    }

    /// Executable form of `pair_offset`.
    pub fn pair_slot_offset(self) -> (r: usize)
        ensures
            r == self.pair_offset(),
    {
        match self {
            Protocol::Concentrated => 44,
            Protocol::Classic => 12,
            Protocol::Stable => 44,
        }
    }
}

/// The address held in the low 20 bytes of a 32-byte topic.
pub open spec fn topic_address(topic: Seq<u8>) -> Seq<u8> {
    topic.subrange(12, 32)
}

/// The 20 bytes of `data` starting at `offset`.
pub open spec fn slot_address(data: Seq<u8>, offset: nat) -> Seq<u8> {
    data.subrange(offset as int, offset as int + 20)
}

/// The unsigned big-endian value of the low three bytes of a topic.
pub open spec fn fee_of(topic: Seq<u8>) -> nat {
    (topic[29] as nat) * 65536 + (topic[30] as nat) * 256 + (topic[31] as nat)
}

/// The boolean held in the first 32-byte slot of the payload: true when the
/// slot's value is nonzero.
pub open spec fn stable_flag(data: Seq<u8>) -> bool {
    exists|i: int| 0 <= i < 32 && #[trigger] data[i] != 0
}

/// What a log entry with these topics and payload decodes to under `p`.
pub open spec fn decode_model(p: Protocol, topics: Seq<Seq<u8>>, data: Seq<u8>) -> Result<
    PairModel,
    DecodeError,
> {
    if topics.len() != p.topic_count() {
        Err(DecodeError::WrongTopicCount)
    } else if data.len() < p.min_data_len() {
        Err(DecodeError::PayloadTooShort)
    } else if topic_address(topics[1]) == topic_address(topics[2]) {
        Err(DecodeError::IdenticalTokens)
    } else {
        let token_a = topic_address(topics[1]);
        let token_b = topic_address(topics[2]);
        let pair = slot_address(data, p.pair_offset());
        Ok(
            match p {
                Protocol::Concentrated => PairModel::Concentrated {
                    token_a,
                    token_b,
                    fee: fee_of(topics[3]),
                    pair,
                },
                Protocol::Classic => PairModel::Classic { token_a, token_b, pair },
                Protocol::Stable => PairModel::Stable {
                    token_a,
                    token_b,
                    stable: stable_flag(data),
                    pair,
                },
            },
        )
    }
}

/// What `decode` of entry `e` under `p` yields, as a model.
pub open spec fn decode_entry(p: Protocol, e: RawLogEntry) -> Result<PairModel, DecodeError> {
    decode_model(p, e.topics_view(), e.data@)
}

/// The model of a decoding result.
pub open spec fn result_view(r: Result<PairRecord, DecodeError>) -> Result<PairModel, DecodeError> {
    match r {
        Ok(rec) => Ok(rec@),
        Err(e) => Err(e),
    }
}

/// The 20 bytes of `bytes` starting at `offset`, as an address.
fn address_at(bytes: &[u8], offset: usize) -> (r: Address)
    requires
        offset + 20 <= bytes@.len(),
    ensures
        r@ == bytes@.subrange(offset as int, offset + 20),
{
    let n = bytes.len();
    let mut out = [0u8; 20];
    let mut i: usize = 0;
    while i < 20
        invariant
            0 <= i <= 20,
            n == bytes@.len(),
            offset + 20 <= bytes@.len(),
            out@.len() == 20,
            forall|j: int| 0 <= j < i ==> out@[j] == bytes@[offset + j],
        decreases 20 - i,
    {
        out[i] = bytes[offset + i];
        i = i + 1;
    }
    let r = Address { bytes: out };
    assert(r@ =~= bytes@.subrange(offset as int, offset + 20));
    r
}

/// Whether any byte of the payload's first 32-byte slot is nonzero.
fn first_slot_nonzero(data: &Vec<u8>) -> (r: bool)
    requires
        data@.len() >= 32,
    ensures
        r == stable_flag(data@),
{
    let mut i: usize = 0;
    while i < 32
        invariant
            0 <= i <= 32,
            data@.len() >= 32,
            forall|j: int| 0 <= j < i ==> data@[j] == 0,
        decreases 32 - i,
    {
        if data[i] != 0 {
            return true;
        }
        i = i + 1;
    }
    false
}

/// Decodes one raw log entry under the layout of protocol `p`.
pub fn decode(p: Protocol, e: &RawLogEntry) -> (r: Result<PairRecord, DecodeError>)
    ensures
        result_view(r) == decode_entry(p, *e),
{
    let ghost topics = e.topics_view();
    if e.topics.len() != p.expected_topics() {
        return Err(DecodeError::WrongTopicCount);
    }
    let offset = p.pair_slot_offset();
    if e.data.len() < offset + 20 {
        return Err(DecodeError::PayloadTooShort);
    }
    let t1 = e.topics[1];
    let t2 = e.topics[2];
    assert(topics[1] == t1@ && topics[2] == t2@);
    let token_a = address_at(&t1, 12);
    let token_b = address_at(&t2, 12);
    if token_a == token_b {
        return Err(DecodeError::IdenticalTokens);
    }
    let pair = address_at(e.data.as_slice(), offset);
    let rec = match p {
        Protocol::Concentrated => {
            let t3 = e.topics[3];
            assert(topics[3] == t3@);
            let fee: u32 = (t3[29] as u32) * 65536 + (t3[30] as u32) * 256 + (t3[31] as u32);
            PairRecord::Concentrated(PairInfo { token_1: token_a, token_2: token_b, fee, pair })
        },
        Protocol::Classic => PairRecord::Classic(
            CamelotPair { token_0: token_a, token_1: token_b, pair_address: pair },
        ),
        Protocol::Stable => {
            let stable = first_slot_nonzero(&e.data);
            PairRecord::Stable(VeloPair { token_1: token_a, token_2: token_b, stable, pair })
        },
    };
    Ok(rec)
}

/// Decoding is a function of its input: two results of decoding one entry are equal.
pub proof fn lemma_decode_deterministic(
    p: Protocol,
    e: RawLogEntry,
    r1: Result<PairRecord, DecodeError>,
    r2: Result<PairRecord, DecodeError>,
)
    requires
        result_view(r1) == decode_entry(p, e),
        result_view(r2) == decode_entry(p, e),
    ensures
        r1 == r2,
{
    match (r1, r2) {
        (Ok(a), Ok(b)) => {
            crate::records::lemma_pair_view_injective(a, b);
        },
        _ => {},
    }
}

/// Records and rejections of a batch of log entries.
#[derive(Debug, Clone)]
pub struct DecodedBatch {
    /// The records of the entries that decoded, in log order.
    pub records: Vec<PairRecord>,
    /// The index and error of each entry that did not decode, in log order.
    pub rejected: Vec<(usize, DecodeError)>,
}

/// Models of the records that a batch of entries decodes to, in order.
pub open spec fn batch_records(p: Protocol, entries: Seq<RawLogEntry>) -> Seq<PairModel>
    decreases entries.len(),
{
    if entries.len() == 0 {
        seq![]
    } else {
        let prev = batch_records(p, entries.drop_last());
        match decode_entry(p, entries.last()) {
            Ok(m) => prev.push(m),
            Err(_) => prev,
        }
    }
}

/// Index and error of each entry of a batch that does not decode, in order.
pub open spec fn batch_rejections(p: Protocol, entries: Seq<RawLogEntry>) -> Seq<(usize, DecodeError)>
    decreases entries.len(),
{
    if entries.len() == 0 {
        seq![]
    } else {
        let prev = batch_rejections(p, entries.drop_last());
        match decode_entry(p, entries.last()) {
            Ok(_) => prev,
            Err(e) => prev.push(((entries.len() - 1) as usize, e)),
        }
    }
}

/// Decodes every entry of a batch; an entry that does not decode is skipped
/// and reported by index, and the rest of the batch goes on.
pub fn decode_logs(p: Protocol, entries: &Vec<RawLogEntry>) -> (r: DecodedBatch)
    ensures
        r.records@.map_values(|x: PairRecord| x@) == batch_records(p, entries@),
        r.rejected@ == batch_rejections(p, entries@),
        r.records@.len() + r.rejected@.len() == entries@.len(),
        r.records@.len() == entries@.filter(|e: RawLogEntry| decode_entry(p, e) is Ok).len(),
        forall|i: int|
            0 <= i < entries@.len() && entries@[i].topics@.len() != p.topic_count()
                ==> r.rejected@.contains((i as usize, DecodeError::WrongTopicCount)),
{
    let mut records: Vec<PairRecord> = Vec::new();
    let mut rejected: Vec<(usize, DecodeError)> = Vec::new();
    let mut i: usize = 0;
    while i < entries.len()
        invariant
            0 <= i <= entries@.len(),
            records@.map_values(|x: PairRecord| x@) == batch_records(p, entries@.subrange(0, i as int)),
            rejected@ == batch_rejections(p, entries@.subrange(0, i as int)),
            records@.len() + rejected@.len() == i,
            records@.len() == entries@.subrange(0, i as int).filter(
                |e: RawLogEntry| decode_entry(p, e) is Ok,
            ).len(),
            forall|j: int|
                0 <= j < i && entries@[j].topics@.len() != p.topic_count()
                    ==> rejected@.contains((j as usize, DecodeError::WrongTopicCount)),
        decreases entries@.len() - i,
    {
        let ghost before = entries@.subrange(0, i as int);
        let ghost after = entries@.subrange(0, i + 1);
        assert(after.drop_last() =~= before);
        assert(after.last() == entries@[i as int]);
        proof {
            reveal(Seq::filter);
        }
        let ghost old_rejected = rejected@;
        match decode(p, &entries[i]) {
            Ok(rec) => {
                let ghost old_records = records@;
                records.push(rec);
                assert(records@.map_values(|x: PairRecord| x@) =~= old_records.map_values(
                    |x: PairRecord| x@,
                ).push(rec@));
            },
            Err(err) => {
                rejected.push((i, err));
                assert(rejected@.last() == (i, err));
            },
        }
        proof {
            assert forall|j: int|
                0 <= j < i + 1 && entries@[j].topics@.len() != p.topic_count() implies rejected@.contains(
                (j as usize, DecodeError::WrongTopicCount),
            ) by {
                if j < i {
                    let k = choose|k: int| 0 <= k < old_rejected.len() && old_rejected[k] == (j as usize, DecodeError::WrongTopicCount);
                    assert(rejected@[k] == old_rejected[k]);
                } else {
                    assert(entries@[j].topics_view().len() == entries@[j].topics@.len());
                    assert(rejected@[rejected@.len() - 1] == (j as usize, DecodeError::WrongTopicCount));
                }
            }
        }
        i = i + 1;
    }
    assert(entries@.subrange(0, entries@.len() as int) =~= entries@);
    DecodedBatch { records, rejected }
}

} // verus!
