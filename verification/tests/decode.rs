use ethers_etherscan::hash::{Address, H256};
use ethers_etherscan::logs::{
    decode_address, decode_block_number, decode_data, decode_hash, decode_index, decode_log,
    decode_numeric, decode_topics, DecodeError, Log, RawLog,
};
use ethers_etherscan::uint::U256;

const TRANSFER: &str = "0xddf252ad1be2c89b69c2b068fc378daa952ba7f163c4a11628f55a4df523b3ef";
const BLOCK_HASH: &str = "0x7e1638fd2c6bdd05ffd83c1cf06c63e2f67d0f802084bef076d06bdcf86d1bb0";
const TX_HASH: &str = "0x4ffd22d986913d33927a392fe4319bcd2b62f3afe1c15a2c59f77fc2cc4c20a9";
const CONTRACT: &str = "0xbd3531da5cf5857e7cfaa92426877b022e612cf8";

fn sample() -> RawLog {
    RawLog {
        block_number: "0xc48174".to_string(),
        block_hash: BLOCK_HASH.to_string(),
        time_stamp: "0x60f9ce56".to_string(),
        transaction_hash: TX_HASH.to_string(),
        transaction_index: Some("5".to_string()),
        log_index: Some("27".to_string()),
        address: CONTRACT.to_string(),
        gas_price: "0x2e90edd000".to_string(),
        gas_used: "2388485".to_string(),
        topics: vec![
            TRANSFER.to_string(),
            "0x0000000000000000000000000000000000000000000000000000000000000000".to_string(),
        ],
        data: "0x00ff".to_string(),
    }
}

fn malformed(field: &str, raw: &str) -> DecodeError {
    DecodeError::MalformedHex { field: field.to_string(), raw: raw.to_string() }
}

fn invalid(field: &str, raw: &str) -> DecodeError {
    DecodeError::InvalidNumber { field: field.to_string(), raw: raw.to_string() }
}

#[test]
fn well_formed_record_decodes_field_by_field() {
    let log = decode_log(&sample()).unwrap();
    let expected = Log {
        block_number: 12_878_196,
        block_hash: H256::parse(BLOCK_HASH).unwrap(),
        time_stamp: U256::from_u64(1_626_984_022),
        transaction_hash: H256::parse(TX_HASH).unwrap(),
        transaction_index: Some(5),
        log_index: Some(27),
        address: Address::parse(CONTRACT).unwrap(),
        gas_price: U256::from_u64(200_000_000_000),
        gas_used: U256::from_u64(2_388_485),
        topics: vec![H256::parse(TRANSFER).unwrap(), H256([0u8; 32])],
        data: vec![0x00, 0xff],
    };
    assert_eq!(log, expected);
    assert_eq!(log.block_hash.0[0], 0x7e);
    assert_eq!(log.block_hash.0[31], 0xb0);
    assert_eq!(log.address.0[0], 0xbd);
    assert_eq!(log.address.0[19], 0xf8);
}

#[test]
fn gas_price_in_either_base_is_the_same_number() {
    let mut hex = sample();
    hex.gas_price = "0x5208".to_string();
    let mut dec = sample();
    dec.gas_price = "21000".to_string();
    let a = decode_log(&hex).unwrap();
    let b = decode_log(&dec).unwrap();
    assert_eq!(a.gas_price, U256::from_u64(21000));
    assert_eq!(b.gas_price, U256::from_u64(21000));
    assert_eq!(a.gas_price.to_u64(), Some(21000));
    assert_eq!(a, b);
}

#[test]
fn every_numeric_field_takes_either_base() {
    let mut hex = sample();
    hex.block_number = "0x10".to_string();
    hex.time_stamp = "0x20".to_string();
    hex.gas_price = "0x30".to_string();
    hex.gas_used = "0x40".to_string();
    let mut dec = sample();
    dec.block_number = "16".to_string();
    dec.time_stamp = "32".to_string();
    dec.gas_price = "48".to_string();
    dec.gas_used = "64".to_string();
    let a = decode_log(&hex).unwrap();
    assert_eq!(a, decode_log(&dec).unwrap());
    assert_eq!(a.block_number, 16);
    assert_eq!(a.time_stamp, U256::from_u64(32));
    assert_eq!(a.gas_price, U256::from_u64(48));
    assert_eq!(a.gas_used, U256::from_u64(64));
}

#[test]
fn index_has_no_value_when_absent_or_empty() {
    assert_eq!(decode_index("transactionIndex", None), Ok(None));
    assert_eq!(decode_index("transactionIndex", Some("")), Ok(None));
    assert_eq!(decode_index("logIndex", None), Ok(None));
    assert_eq!(decode_index("logIndex", Some("")), Ok(None));
    let mut raw = sample();
    raw.transaction_index = None;
    raw.log_index = Some(String::new());
    let log = decode_log(&raw).unwrap();
    assert_eq!(log.transaction_index, None);
    assert_eq!(log.log_index, None);
}

#[test]
fn index_is_the_exact_integer() {
    assert_eq!(decode_index("logIndex", Some("0")), Ok(Some(0)));
    assert_eq!(decode_index("logIndex", Some("7")), Ok(Some(7)));
    assert_eq!(decode_index("logIndex", Some("007")), Ok(Some(7)));
    assert_eq!(decode_index("logIndex", Some("27")), Ok(Some(27)));
    assert_eq!(decode_index("logIndex", Some("18446744073709551615")), Ok(Some(u64::MAX)));
}

#[test]
fn index_that_is_no_decimal_numeral_has_no_value() {
    for text in ["abc", "0x", "0x1b", "1b", "-1", "+1", " 1", "1.0", "１"] {
        assert_eq!(decode_index("logIndex", Some(text)), Ok(None), "{text:?}");
    }
}

#[test]
fn index_beyond_64_bits_is_an_invalid_number() {
    let over = "18446744073709551616";
    assert_eq!(decode_index("logIndex", Some(over)), Err(invalid("logIndex", over)));
    let huge = "9".repeat(90);
    assert_eq!(
        decode_index("transactionIndex", Some(&huge)),
        Err(invalid("transactionIndex", &huge))
    );
    let mut raw = sample();
    raw.log_index = Some(over.to_string());
    assert_eq!(decode_log(&raw), Err(invalid("logIndex", over)));
}

#[test]
fn zero_index_is_a_value() {
    let mut raw = sample();
    raw.transaction_index = Some("0".to_string());
    let log = decode_log(&raw).unwrap();
    assert_eq!(log.transaction_index, Some(0));
}

#[test]
fn empty_topics_are_accepted() {
    let mut raw = sample();
    raw.topics = vec![];
    let log = decode_log(&raw).unwrap();
    assert!(log.topics.is_empty());
    assert_eq!(decode_topics("topics", &vec![]), Ok(vec![]));
}

#[test]
fn topics_keep_their_order() {
    let texts: Vec<String> = (0..4u8).map(|i| format!("0x{}", format!("{:02x}", i + 1).repeat(32))).collect();
    let hashes = decode_topics("topics", &texts).unwrap();
    assert_eq!(hashes.len(), 4);
    for (i, h) in hashes.iter().enumerate() {
        assert_eq!(h.0, [i as u8 + 1; 32]);
    }
}

#[test]
fn first_bad_topic_is_reported() {
    let texts = vec![
        TRANSFER.to_string(),
        "0x12".to_string(),
        "nonsense".to_string(),
        TRANSFER.to_string(),
    ];
    assert_eq!(decode_topics("topics", &texts), Err(malformed("topics", "0x12")));
    let mut raw = sample();
    raw.topics = texts;
    assert_eq!(decode_log(&raw), Err(malformed("topics", "0x12")));
}

#[test]
fn empty_payload_decodes_to_no_bytes() {
    let mut raw = sample();
    raw.data = "0x".to_string();
    assert_eq!(decode_log(&raw).unwrap().data, Vec::<u8>::new());
    assert_eq!(decode_data("data", "0x"), Ok(vec![]));
}

#[test]
fn bad_payload_is_malformed_hex() {
    assert_eq!(decode_data("data", "0x123"), Err(malformed("data", "0x123")));
    assert_eq!(decode_data("data", "0xzz"), Err(malformed("data", "0xzz")));
    let mut raw = sample();
    raw.data = "0xabc".to_string();
    assert_eq!(decode_log(&raw), Err(malformed("data", "0xabc")));
}

#[test]
fn hash_of_wrong_length_is_malformed_hex() {
    let short = &BLOCK_HASH[..64];
    assert_eq!(decode_hash("blockHash", short), Err(malformed("blockHash", short)));
    let mut raw = sample();
    raw.block_hash = short.to_string();
    assert_eq!(decode_log(&raw), Err(malformed("blockHash", short)));
    let mut raw = sample();
    raw.transaction_hash = CONTRACT.to_string();
    assert_eq!(decode_log(&raw), Err(malformed("transactionHash", CONTRACT)));
}

#[test]
fn hash_with_a_bad_digit_is_malformed_hex() {
    let bad = format!("{}g", &BLOCK_HASH[..65]);
    assert_eq!(decode_hash("blockHash", &bad), Err(malformed("blockHash", &bad)));
    assert_eq!(decode_hash("blockHash", BLOCK_HASH), Ok(H256::parse(BLOCK_HASH).unwrap()));
}

#[test]
fn bad_address_is_malformed_hex() {
    assert_eq!(decode_address("address", TRANSFER), Err(malformed("address", TRANSFER)));
    assert_eq!(decode_address("address", "0x"), Err(malformed("address", "0x")));
    let unprefixed = &CONTRACT[2..];
    assert_eq!(decode_address("address", unprefixed), Err(malformed("address", unprefixed)));
    let mut raw = sample();
    raw.address = "0xnot-an-address".to_string();
    assert_eq!(decode_log(&raw), Err(malformed("address", "0xnot-an-address")));
    assert_eq!(decode_address("address", CONTRACT), Ok(Address::parse(CONTRACT).unwrap()));
}

#[test]
fn bad_number_is_an_invalid_number() {
    for text in ["", "0x", "12a", "0xg1", "latest", "-3", "1.5"] {
        assert_eq!(decode_numeric("gasPrice", text), Err(invalid("gasPrice", text)), "{text:?}");
        assert_eq!(
            decode_block_number("blockNumber", text),
            Err(invalid("blockNumber", text)),
            "{text:?}"
        );
    }
    let mut raw = sample();
    raw.gas_used = String::new();
    assert_eq!(decode_log(&raw), Err(invalid("gasUsed", "")));
    let mut raw = sample();
    raw.time_stamp = "yesterday".to_string();
    assert_eq!(decode_log(&raw), Err(invalid("timeStamp", "yesterday")));
}

#[test]
fn number_beyond_256_bits_is_an_invalid_number() {
    let over = format!("0x1{}", "0".repeat(64));
    assert_eq!(decode_numeric("gasUsed", &over), Err(invalid("gasUsed", &over)));
    let max = format!("0x{}", "f".repeat(64));
    assert_eq!(decode_numeric("gasUsed", &max), Ok(U256([u64::MAX; 4])));
}

#[test]
fn block_number_has_to_fit_64_bits() {
    assert_eq!(decode_block_number("blockNumber", "0"), Ok(0));
    assert_eq!(decode_block_number("blockNumber", "12878196"), Ok(12_878_196));
    assert_eq!(decode_block_number("blockNumber", "0xc48174"), Ok(12_878_196));
    assert_eq!(decode_block_number("blockNumber", "0xffffffffffffffff"), Ok(u64::MAX));
    assert_eq!(decode_block_number("blockNumber", "18446744073709551615"), Ok(u64::MAX));
    for over in ["0x10000000000000000", "18446744073709551616"] {
        assert_eq!(decode_block_number("blockNumber", over), Err(invalid("blockNumber", over)));
    }
    let mut raw = sample();
    raw.block_number = "18446744073709551616".to_string();
    assert_eq!(decode_log(&raw), Err(invalid("blockNumber", "18446744073709551616")));
}

#[test]
fn timestamp_may_exceed_64_bits() {
    let mut raw = sample();
    raw.time_stamp = "18446744073709551616".to_string();
    assert_eq!(decode_log(&raw).unwrap().time_stamp, U256([0, 1, 0, 0]));
}

#[test]
fn first_bad_field_in_record_order_is_reported() {
    let mut raw = sample();
    raw.data = "0x1".to_string();
    raw.gas_price = "x".to_string();
    raw.block_hash = "0x00".to_string();
    assert_eq!(decode_log(&raw), Err(malformed("blockHash", "0x00")));
    raw.block_hash = BLOCK_HASH.to_string();
    assert_eq!(decode_log(&raw), Err(invalid("gasPrice", "x")));
    raw.gas_price = "1".to_string();
    assert_eq!(decode_log(&raw), Err(malformed("data", "0x1")));
    raw.block_number = "".to_string();
    assert_eq!(decode_log(&raw), Err(invalid("blockNumber", "")));
}

#[test]
fn decoding_does_not_depend_on_the_other_fields() {
    let base = decode_log(&sample()).unwrap();
    let mut raw = sample();
    raw.gas_used = "0x247205".to_string();
    raw.data = "0x".to_string();
    let other = decode_log(&raw).unwrap();
    assert_eq!(other.gas_used, base.gas_used);
    assert_eq!(other.gas_price, base.gas_price);
    assert_eq!(other.block_number, base.block_number);
    assert_eq!(other.topics, base.topics);
}
