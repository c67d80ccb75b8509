use pair_harvest::{
    decode, decode_logs, Address, CamelotPair, DecodeError, PairInfo, PairRecord, Protocol,
    RawLogEntry, VeloPair,
};

fn addr(seed: u8) -> Address {
    let mut bytes = [0u8; 20];
    for (i, b) in bytes.iter_mut().enumerate() {
        *b = seed.wrapping_add(i as u8);
    }
    Address { bytes }
}

fn topic_of(a: Address) -> [u8; 32] {
    let mut t = [0u8; 32];
    t[12..].copy_from_slice(&a.bytes);
    t
}

fn slot_of(a: Address) -> [u8; 32] {
    topic_of(a)
}

fn sig() -> [u8; 32] {
    [0xabu8; 32]
}

fn fee_topic(fee: u32) -> [u8; 32] {
    let mut t = [0u8; 32];
    t[29] = (fee >> 16) as u8;
    t[30] = (fee >> 8) as u8;
    t[31] = fee as u8;
    t
}

fn entry(topics: Vec<[u8; 32]>, data: Vec<u8>) -> RawLogEntry {
    RawLogEntry { topics, data, block_number: Some(7) }
}

fn concentrated_entry(a: Address, b: Address, fee: u32, pool: Address) -> RawLogEntry {
    let mut data = vec![0u8; 32];
    data[31] = 60;
    data.extend_from_slice(&slot_of(pool));
    entry(vec![sig(), topic_of(a), topic_of(b), fee_topic(fee)], data)
}

#[test]
fn concentrated_pool_offsets() {
    let a = addr(0x10);
    let b = addr(0x40);
    let pool = addr(0x90);
    let mut data = vec![0u8; 64];
    data[44..64].copy_from_slice(&pool.bytes);
    let mut fee = [0u8; 32];
    fee[30] = 0x0b;
    fee[31] = 0xb8;
    let e = entry(vec![sig(), topic_of(a), topic_of(b), fee], data);
    let r = decode(Protocol::Concentrated, &e).unwrap();
    assert_eq!(
        r,
        PairRecord::Concentrated(PairInfo { token_1: a, token_2: b, fee: 3000, pair: pool })
    );
}

#[test]
fn fee_uses_all_three_low_bytes() {
    let e = concentrated_entry(addr(1), addr(2), 0x0a0b0c, addr(3));
    match decode(Protocol::Concentrated, &e).unwrap() {
        PairRecord::Concentrated(p) => assert_eq!(p.fee, 0x0a0b0c),
        other => panic!("unexpected {:?}", other),
    }
}

#[test]
fn fee_ignores_high_bytes_of_topic() {
    let mut e = concentrated_entry(addr(1), addr(2), 500, addr(3));
    e.topics[3][0] = 0xff;
    e.topics[3][28] = 0xff;
    match decode(Protocol::Concentrated, &e).unwrap() {
        PairRecord::Concentrated(p) => assert_eq!(p.fee, 500),
        other => panic!("unexpected {:?}", other),
    }
}

#[test]
fn classic_pair_reads_first_slot() {
    let a = addr(0x21);
    let b = addr(0x51);
    let pair = addr(0x81);
    let mut data = slot_of(pair).to_vec();
    data.extend_from_slice(&[0u8; 31]);
    data.push(9);
    let e = entry(vec![sig(), topic_of(a), topic_of(b)], data);
    assert_eq!(
        decode(Protocol::Classic, &e),
        Ok(PairRecord::Classic(CamelotPair { token_0: a, token_1: b, pair_address: pair }))
    );
}

#[test]
fn classic_pair_needs_only_first_slot() {
    let e = entry(vec![sig(), topic_of(addr(1)), topic_of(addr(2))], slot_of(addr(3)).to_vec());
    assert!(decode(Protocol::Classic, &e).is_ok());
}

#[test]
fn stable_pair_reads_flag_and_second_slot() {
    let a = addr(0x01);
    let b = addr(0x31);
    let pair = addr(0x61);
    let mut data = vec![0u8; 32];
    data[31] = 1;
    data.extend_from_slice(&slot_of(pair));
    data.extend_from_slice(&[0u8; 32]);
    let e = entry(vec![sig(), topic_of(a), topic_of(b)], data.clone());
    assert_eq!(
        decode(Protocol::Stable, &e),
        Ok(PairRecord::Stable(VeloPair { token_1: a, token_2: b, stable: true, pair }))
    );
    data[31] = 0;
    let e = entry(vec![sig(), topic_of(a), topic_of(b)], data);
    assert_eq!(
        decode(Protocol::Stable, &e),
        Ok(PairRecord::Stable(VeloPair { token_1: a, token_2: b, stable: false, pair }))
    );
}

#[test]
fn too_few_topics_is_malformed() {
    let mut e = concentrated_entry(addr(1), addr(2), 3000, addr(3));
    e.topics.pop();
    assert_eq!(decode(Protocol::Concentrated, &e), Err(DecodeError::WrongTopicCount));
}

#[test]
fn too_many_topics_is_malformed() {
    let e = concentrated_entry(addr(1), addr(2), 3000, addr(3));
    assert_eq!(decode(Protocol::Classic, &e), Err(DecodeError::WrongTopicCount));
}

#[test]
fn short_payload_is_malformed() {
    let mut e = concentrated_entry(addr(1), addr(2), 3000, addr(3));
    e.data.truncate(63);
    assert_eq!(decode(Protocol::Concentrated, &e), Err(DecodeError::PayloadTooShort));
    let e = entry(vec![sig(), topic_of(addr(1)), topic_of(addr(2))], vec![0u8; 31]);
    assert_eq!(decode(Protocol::Classic, &e), Err(DecodeError::PayloadTooShort));
}

#[test]
fn identical_tokens_are_malformed() {
    let e = concentrated_entry(addr(5), addr(5), 3000, addr(3));
    assert_eq!(decode(Protocol::Concentrated, &e), Err(DecodeError::IdenticalTokens));
}

#[test]
fn decoding_twice_gives_the_same_record() {
    let e = concentrated_entry(addr(1), addr(2), 10000, addr(3));
    assert_eq!(decode(Protocol::Concentrated, &e), decode(Protocol::Concentrated, &e));
    let bad = entry(vec![sig()], vec![]);
    assert_eq!(decode(Protocol::Stable, &bad), decode(Protocol::Stable, &bad));
}

#[test]
fn malformed_entries_are_skipped_in_a_batch() {
    let good1 = concentrated_entry(addr(1), addr(2), 500, addr(3));
    let mut short_topics = concentrated_entry(addr(4), addr(5), 500, addr(6));
    short_topics.topics.truncate(2);
    let good2 = concentrated_entry(addr(7), addr(8), 3000, addr(9));
    let same = concentrated_entry(addr(7), addr(7), 3000, addr(9));
    let batch = decode_logs(Protocol::Concentrated, &vec![good1, short_topics, good2, same]);
    assert_eq!(
        batch.records,
        vec![
            PairRecord::Concentrated(PairInfo {
                token_1: addr(1),
                token_2: addr(2),
                fee: 500,
                pair: addr(3)
            }),
            PairRecord::Concentrated(PairInfo {
                token_1: addr(7),
                token_2: addr(8),
                fee: 3000,
                pair: addr(9)
            }),
        ]
    );
    assert_eq!(
        batch.rejected,
        vec![(1, DecodeError::WrongTopicCount), (3, DecodeError::IdenticalTokens)]
    );
}

#[test]
fn empty_batch_decodes_to_nothing() {
    let batch = decode_logs(Protocol::Classic, &vec![]);
    assert!(batch.records.is_empty());
    assert!(batch.rejected.is_empty());
}

#[test]
fn stable_flag_is_the_whole_first_slot() {
    let a = addr(0x01);
    let b = addr(0x31);
    let pair = addr(0x61);
    let mut data = vec![0u8; 32];
    data[0] = 1;
    data.extend_from_slice(&slot_of(pair));
    let e = entry(vec![sig(), topic_of(a), topic_of(b)], data.clone());
    assert_eq!(
        decode(Protocol::Stable, &e),
        Ok(PairRecord::Stable(VeloPair { token_1: a, token_2: b, stable: true, pair }))
    );
    data[0] = 0;
    data[17] = 0x80;
    let e = entry(vec![sig(), topic_of(a), topic_of(b)], data);
    assert_eq!(
        decode(Protocol::Stable, &e),
        Ok(PairRecord::Stable(VeloPair { token_1: a, token_2: b, stable: true, pair }))
    );
}
