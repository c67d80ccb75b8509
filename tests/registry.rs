use pair_harvest::{
    parse_address, plan_fetches, Address, CamelotPair, FetchOutcome, PairInfo,
    PairRecord, TokenInfo, TokenRegistry,
};

fn addr(last: u8) -> Address {
    let mut bytes = [0u8; 20];
    bytes[0] = 0xc0;
    bytes[19] = last;
    Address { bytes }
}

fn token(a: Address, symbol: &str) -> TokenInfo {
    TokenInfo { address: a, name: format!("{} token", symbol), symbol: symbol.to_string(), decimals: 18 }
}

fn classic(a: Address, b: Address, pair: Address) -> PairRecord {
    PairRecord::Classic(CamelotPair { token_0: a, token_1: b, pair_address: pair })
}

fn addresses(reg: &TokenRegistry) -> Vec<Address> {
    reg.entries().iter().map(|t| t.address).collect()
}

#[test]
fn canonical_text_is_lower_case_hex() {
    let mut bytes = [0u8; 20];
    bytes[0] = 0x1f;
    bytes[1] = 0x98;
    bytes[19] = 0xab;
    let text = Address { bytes }.canonical_text();
    assert_eq!(
        String::from_utf8(text).unwrap(),
        "0x1f980000000000000000000000000000000000ab"
    );
}

#[test]
fn parse_accepts_prefixed_and_bare_hex_of_either_case() {
    let a = parse_address(b"0x1F98431c8aD98523631AE4a59f267346ea31F984").unwrap();
    assert_eq!(a.bytes[0], 0x1f);
    assert_eq!(a.bytes[19], 0x84);
    assert_eq!(
        String::from_utf8(a.canonical_text()).unwrap(),
        "0x1f98431c8ad98523631ae4a59f267346ea31f984"
    );
    let b = parse_address(b"1f98431c8ad98523631ae4a59f267346ea31f984").unwrap();
    assert_eq!(a, b);
}

#[test]
fn parse_rejects_bad_text() {
    assert_eq!(parse_address(b""), None);
    assert_eq!(parse_address(b"0x"), None);
    assert_eq!(parse_address(b"0x1f98431c8ad98523631ae4a59f267346ea31f98"), None);
    assert_eq!(parse_address(b"0x1f98431c8ad98523631ae4a59f267346ea31f9840"), None);
    assert_eq!(parse_address(b"0x1f98431c8ad98523631ae4a59f267346ea31f98g"), None);
    assert_eq!(parse_address(b"0X1f98431c8ad98523631ae4a59f267346ea31f984"), None);
}

#[test]
fn canonical_text_round_trips() {
    let a = addr(0x7e);
    assert_eq!(parse_address(&a.canonical_text()), Some(a));
}

#[test]
fn loading_keeps_first_of_repeated_addresses() {
    let reg = TokenRegistry::from_entries(vec![
        token(addr(1), "ONE"),
        token(addr(2), "TWO"),
        token(addr(1), "DUP"),
    ]);
    assert_eq!(reg.len(), 2);
    assert_eq!(reg.entries()[0].symbol, "ONE");
    assert!(reg.contains(&addr(2)));
    assert!(!reg.contains(&addr(3)));
}

#[test]
fn insert_appends_only_new_addresses() {
    let mut reg = TokenRegistry::new();
    assert!(reg.insert(token(addr(1), "A")));
    assert!(!reg.insert(token(addr(1), "B")));
    assert!(reg.insert(token(addr(2), "C")));
    assert_eq!(addresses(&reg), vec![addr(1), addr(2)]);
    assert_eq!(reg.entries()[0].symbol, "A");
}

#[test]
fn plan_skips_known_and_repeated_addresses() {
    let reg = TokenRegistry::from_entries(vec![token(addr(1), "ONE")]);
    let pairs = vec![
        classic(addr(1), addr(2), addr(100)),
        classic(addr(3), addr(2), addr(101)),
        classic(addr(2), addr(4), addr(102)),
    ];
    assert_eq!(plan_fetches(&reg, &pairs), vec![addr(2), addr(3), addr(4)]);
}

#[test]
fn failed_fetch_leaves_address_out_of_the_added_set() {
    let mut reg = TokenRegistry::new();
    let pairs = vec![classic(addr(1), addr(2), addr(100)), classic(addr(3), addr(1), addr(101))];
    let plan = plan_fetches(&reg, &pairs);
    assert_eq!(plan, vec![addr(1), addr(2), addr(3)]);
    let report = reg.apply_fetches(&vec![
        FetchOutcome::Fetched(token(addr(3), "THREE")),
        FetchOutcome::Failed(addr(2)),
        FetchOutcome::Fetched(token(addr(1), "ONE")),
    ]);
    assert_eq!(report.added, vec![addr(3), addr(1)]);
    assert_eq!(report.failed, vec![addr(2)]);
    assert_eq!(reg.len(), 2);
    assert_eq!(reg.entries()[0].symbol, "THREE");
    assert_eq!(reg.entries()[1].symbol, "ONE");
}

#[test]
fn plan_of_empty_batch_is_empty() {
    let reg = TokenRegistry::new();
    assert!(plan_fetches(&reg, &vec![]).is_empty());
}

#[test]
fn same_new_address_in_two_pairs_is_fetched_once() {
    let reg = TokenRegistry::new();
    let pairs = vec![
        classic(addr(5), addr(6), addr(100)),
        PairRecord::Concentrated(PairInfo { token_1: addr(7), token_2: addr(5), fee: 500, pair: addr(101) }),
    ];
    let plan = plan_fetches(&reg, &pairs);
    assert_eq!(plan, vec![addr(5), addr(6), addr(7)]);
    assert_eq!(plan.iter().filter(|a| **a == addr(5)).count(), 1);
}

#[test]
fn outcomes_in_any_order_add_one_entry_per_address() {
    let mut reg = TokenRegistry::new();
    let outcomes = vec![
        FetchOutcome::Fetched(token(addr(6), "SIX")),
        FetchOutcome::Fetched(token(addr(5), "FIVE")),
        FetchOutcome::Fetched(token(addr(5), "FIVE AGAIN")),
    ];
    let report = reg.apply_fetches(&outcomes);
    assert_eq!(report.added, vec![addr(6), addr(5)]);
    assert_eq!(addresses(&reg), vec![addr(6), addr(5)]);
    assert_eq!(reg.entries()[1].symbol, "FIVE");
}

#[test]
fn failed_fetch_does_not_block_the_others() {
    let mut reg = TokenRegistry::from_entries(vec![token(addr(1), "OLD")]);
    let outcomes = vec![
        FetchOutcome::Fetched(token(addr(2), "TWO")),
        FetchOutcome::Failed(addr(3)),
        FetchOutcome::Fetched(token(addr(4), "FOUR")),
    ];
    let report = reg.apply_fetches(&outcomes);
    assert_eq!(report.added, vec![addr(2), addr(4)]);
    assert_eq!(report.failed, vec![addr(3)]);
    assert_eq!(addresses(&reg), vec![addr(1), addr(2), addr(4)]);
    assert!(!reg.contains(&addr(3)));
}

#[test]
fn reconciling_the_same_batch_twice_fetches_nothing_new() {
    let mut reg = TokenRegistry::from_entries(vec![token(addr(1), "ONE")]);
    let pairs = vec![classic(addr(1), addr(2), addr(100)), classic(addr(3), addr(2), addr(101))];
    let plan = plan_fetches(&reg, &pairs);
    assert_eq!(plan, vec![addr(2), addr(3)]);
    let outcomes: Vec<FetchOutcome> = plan
        .iter()
        .rev()
        .map(|a| FetchOutcome::Fetched(token(*a, "NEW")))
        .collect();
    reg.apply_fetches(&outcomes);
    let after_first = reg.entries().clone();
    let plan2 = plan_fetches(&reg, &pairs);
    assert!(plan2.is_empty());
    let report = reg.apply_fetches(&vec![]);
    assert!(report.added.is_empty());
    assert_eq!(reg.entries(), &after_first);
}

#[test]
fn failed_address_is_planned_again_next_run() {
    let mut reg = TokenRegistry::new();
    let pairs = vec![classic(addr(2), addr(3), addr(100))];
    let plan = plan_fetches(&reg, &pairs);
    reg.apply_fetches(&vec![
        FetchOutcome::Fetched(token(plan[0], "TWO")),
        FetchOutcome::Failed(plan[1]),
    ]);
    assert_eq!(plan_fetches(&reg, &pairs), vec![addr(3)]);
}
