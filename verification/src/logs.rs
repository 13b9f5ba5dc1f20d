//! Event logs as the explorer returns them, and their decoding.
//!
//! The explorer writes every field of a log as text, and is not consistent
//! in how: numbers come in base sixteen or in base ten from one response to
//! the next. A `RawLog` holds one record as it was received; `decode_log`
//! turns it into a `Log`, or names the field that cannot be read.
//!
//! Fields are read in the order of the record: `blockNumber`, `blockHash`,
//! `timeStamp`, `transactionHash`, `transactionIndex`, `logIndex`, `address`,
//! `gasPrice`, `gasUsed`, `topics`, `data`. The error is that of the first
//! field that cannot be read.

use crate::digits::{
    all_dec_digits, all_hex_digits, dec_text, dec_value, has_hex_prefix, hex_value,
    is_decimal_numeral, lemma_dec_text,
};
use crate::hash::{data_value, fixed_hex_value, parse_data, Address, H256};
use crate::uint::{lemma_cross_encoding, numeral_value, U256};
use vstd::prelude::*;

pub use crate::query::LogListParams;

verus! {

/// Why a record could not be decoded: the field at fault, by the name it has
/// in the record, and the text that was found there.
#[derive(Clone, Debug, PartialEq, Eq)]
pub enum DecodeError {
    /// A hash, an address or a byte string is not the hexadecimal text of
    /// one: a character is no hexadecimal digit, or the length is wrong.
    MalformedHex { field: String, raw: String },
    /// A number's text is no numeral in the base its prefix calls for, or
    /// the number is too large for the field.
    InvalidNumber { field: String, raw: String },
}

/// A `DecodeError` with its texts as sequences of characters.
#[verifier::ext_equal]
pub enum DecodeErrorView {
    MalformedHex { field: Seq<char>, raw: Seq<char> },
    InvalidNumber { field: Seq<char>, raw: Seq<char> },
}

impl View for DecodeError {
    type V = DecodeErrorView;

    open spec fn view(&self) -> DecodeErrorView {
        match self {
            DecodeError::MalformedHex { field, raw } => DecodeErrorView::MalformedHex {
                field: field@,
                raw: raw@,
            },
            DecodeError::InvalidNumber { field, raw } => DecodeErrorView::InvalidNumber {
                field: field@,
                raw: raw@,
            },
        }
    }
}

/// One log record as the explorer returned it: the text of each field.
/// `transaction_index` and `log_index` are `None` where the record has no
/// such field.
#[derive(Clone, Debug, PartialEq, Eq)]
pub struct RawLog {
    pub block_number: String,
    pub block_hash: String,
    pub time_stamp: String,
    pub transaction_hash: String,
    pub transaction_index: Option<String>,
    pub log_index: Option<String>,
    pub address: String,
    pub gas_price: String,
    pub gas_used: String,
    pub topics: Vec<String>,
    pub data: String,
}

/// A `RawLog` with its texts as sequences of characters.
#[verifier::ext_equal]
pub struct RawLogView {
    pub block_number: Seq<char>,
    pub block_hash: Seq<char>,
    pub time_stamp: Seq<char>,
    pub transaction_hash: Seq<char>,
    pub transaction_index: Option<Seq<char>>,
    pub log_index: Option<Seq<char>>,
    pub address: Seq<char>,
    pub gas_price: Seq<char>,
    pub gas_used: Seq<char>,
    pub topics: Seq<Seq<char>>,
    pub data: Seq<char>,
}

/// The text of an optional field.
pub open spec fn optional_text(s: Option<String>) -> Option<Seq<char>> {
    match s {
        Some(t) => Some(t@),
        None => None,
    }
}

impl View for RawLog {
    type V = RawLogView;

    open spec fn view(&self) -> RawLogView {
        RawLogView {
            block_number: self.block_number@,
            block_hash: self.block_hash@,
            time_stamp: self.time_stamp@,
            transaction_hash: self.transaction_hash@,
            transaction_index: optional_text(self.transaction_index),
            log_index: optional_text(self.log_index),
            address: self.address@,
            gas_price: self.gas_price@,
            gas_used: self.gas_used@,
            topics: self.topics@.map_values(|t: String| t@),
            data: self.data@,
        }
    }
}

/// One event log.
#[derive(Clone, Debug, PartialEq, Eq)]
pub struct Log {
    /// The number of the block that holds the event.
    pub block_number: u64,
    pub block_hash: H256,
    /// Seconds since the epoch.
    pub time_stamp: U256,
    pub transaction_hash: H256,
    /// `None` where the explorer gives none.
    pub transaction_index: Option<u64>,
    /// `None` where the explorer gives none.
    pub log_index: Option<u64>,
    pub address: Address,
    pub gas_price: U256,
    pub gas_used: U256,
    /// The indexed parameters of the event, in the order received.
    pub topics: Vec<H256>,
    /// The parameters of the event that are not indexed.
    pub data: Vec<u8>,
}

/// A `Log` as numbers and sequences of bytes.
#[verifier::ext_equal]
pub struct LogView {
    pub block_number: u64,
    pub block_hash: Seq<u8>,
    pub time_stamp: nat,
    pub transaction_hash: Seq<u8>,
    pub transaction_index: Option<u64>,
    pub log_index: Option<u64>,
    pub address: Seq<u8>,
    pub gas_price: nat,
    pub gas_used: nat,
    pub topics: Seq<Seq<u8>>,
    pub data: Seq<u8>,
}

impl View for Log {
    type V = LogView;

    open spec fn view(&self) -> LogView {
        LogView {
            block_number: self.block_number,
            block_hash: self.block_hash@,
            time_stamp: self.time_stamp@,
            transaction_hash: self.transaction_hash@,
            transaction_index: self.transaction_index,
            log_index: self.log_index,
            address: self.address@,
            gas_price: self.gas_price@,
            gas_used: self.gas_used@,
            topics: self.topics@.map_values(|h: H256| h@),
            data: self.data@,
        }
    }
}

/// What a hash field decodes to: the 32 bytes that `0x` and 64 hexadecimal
/// digits write, and `MalformedHex` for any other text.
pub open spec fn hash_field(field: Seq<char>, raw: Seq<char>) -> Result<Seq<u8>, DecodeErrorView> {
    match fixed_hex_value(raw, 32) {
        Some(bytes) => Ok(bytes),
        None => Err(DecodeErrorView::MalformedHex { field, raw }),
    }
}

/// What an address field decodes to: the 20 bytes that `0x` and 40
/// hexadecimal digits write, and `MalformedHex` for any other text.
pub open spec fn address_field(field: Seq<char>, raw: Seq<char>) -> Result<
    Seq<u8>,
    DecodeErrorView,
> {
    match fixed_hex_value(raw, 20) {
        Some(bytes) => Ok(bytes),
        None => Err(DecodeErrorView::MalformedHex { field, raw }),
    }
}

/// What a byte string field decodes to: the bytes that an even number of
/// hexadecimal digits write, and `MalformedHex` for any other text.
pub open spec fn data_field(field: Seq<char>, raw: Seq<char>) -> Result<Seq<u8>, DecodeErrorView> {
    match data_value(raw) {
        Some(bytes) => Ok(bytes),
        None => Err(DecodeErrorView::MalformedHex { field, raw }),
    }
}

/// What a numeric field decodes to: the number that the numeral writes, in
/// base sixteen with the prefix `0x` and in base ten without, and
/// `InvalidNumber` where the text is no numeral or the number needs more
/// than 256 bits.
pub open spec fn numeric_field(field: Seq<char>, raw: Seq<char>) -> Result<nat, DecodeErrorView> {
    match numeral_value(raw) {
        Some(n) => Ok(n),
        None => Err(DecodeErrorView::InvalidNumber { field, raw }),
    }
}

/// What the block number decodes to: as a numeric field, but the number has
/// to fit in 64 bits.
pub open spec fn block_number_field(field: Seq<char>, raw: Seq<char>) -> Result<
    u64,
    DecodeErrorView,
> {
    match numeral_value(raw) {
        Some(n) => if n <= u64::MAX {
            Ok(n as u64)
        } else {
            Err(DecodeErrorView::InvalidNumber { field, raw })
        },
        None => Err(DecodeErrorView::InvalidNumber { field, raw }),
    }
}

/// What an optional index decodes to. There is no value where the field is
/// absent, where its text is empty, and where the text holds anything but
/// decimal digits. A decimal numeral gives its number, which has to fit in
/// 64 bits: a larger one is an `InvalidNumber`.
pub open spec fn index_field(field: Seq<char>, raw: Option<Seq<char>>) -> Result<
    Option<u64>,
    DecodeErrorView,
> {
    match raw {
        None => Ok(None),
        Some(text) => if text.len() == 0 || !all_dec_digits(text) {
            Ok(None)
        } else if dec_value(text) <= u64::MAX {
            Ok(Some(dec_value(text) as u64))
        } else {
            Err(DecodeErrorView::InvalidNumber { field, raw: text })
        },
    }
}

/// What the topics decode to: each text as a hash, in the order received.
/// The error is that of the first text that is no hash; an empty list is
/// accepted.
pub open spec fn topics_field(field: Seq<char>, raw: Seq<Seq<char>>) -> Result<
    Seq<Seq<u8>>,
    DecodeErrorView,
>
    decreases raw.len(),
{
    if raw.len() == 0 {
        Ok(Seq::empty())
    } else {
        match topics_field(field, raw.drop_last()) {
            Err(e) => Err(e),
            Ok(hashes) => match hash_field(field, raw.last()) {
                Ok(h) => Ok(hashes.push(h)),
                Err(e) => Err(e),
            },
        }
    }
}

/// What a record decodes to: each field by its own rule, and the error of
/// the first field, in the order of the record, that cannot be read.
pub open spec fn log_value(raw: RawLogView) -> Result<LogView, DecodeErrorView> {
    match block_number_field("blockNumber"@, raw.block_number) {
        Err(e) => Err(e),
        Ok(block_number) => match hash_field("blockHash"@, raw.block_hash) {
            Err(e) => Err(e),
            Ok(block_hash) => match numeric_field("timeStamp"@, raw.time_stamp) {
                Err(e) => Err(e),
                Ok(time_stamp) => match hash_field("transactionHash"@, raw.transaction_hash) {
                    Err(e) => Err(e),
                    Ok(transaction_hash) => match index_field(
                        "transactionIndex"@,
                        raw.transaction_index,
                    ) {
                        Err(e) => Err(e),
                        Ok(transaction_index) => match index_field("logIndex"@, raw.log_index) {
                            Err(e) => Err(e),
                            Ok(log_index) => match address_field("address"@, raw.address) {
                                Err(e) => Err(e),
                                Ok(address) => match numeric_field("gasPrice"@, raw.gas_price) {
                                    Err(e) => Err(e),
                                    Ok(gas_price) => match numeric_field(
                                        "gasUsed"@,
                                        raw.gas_used,
                                    ) {
                                        Err(e) => Err(e),
                                        Ok(gas_used) => match topics_field(
                                            "topics"@,
                                            raw.topics,
                                        ) {
                                            Err(e) => Err(e),
                                            Ok(topics) => match data_field("data"@, raw.data) {
                                                Err(e) => Err(e),
                                                Ok(data) => Ok(
                                                    LogView {
                                                        block_number,
                                                        block_hash,
                                                        time_stamp,
                                                        transaction_hash,
                                                        transaction_index,
                                                        log_index,
                                                        address,
                                                        gas_price,
                                                        gas_used,
                                                        topics,
                                                        data,
                                                    },
                                                ),
                                            },
                                        },
                                    },
                                },
                            },
                        },
                    },
                },
            },
        },
    }
}

/// What a response decodes to: every record, in the order received, or the
/// error of the first record that cannot be decoded.
pub open spec fn logs_value(raws: Seq<RawLogView>) -> Result<Seq<LogView>, DecodeErrorView>
    decreases raws.len(),
{
    if raws.len() == 0 {
        Ok(Seq::empty())
    } else {
        match logs_value(raws.drop_last()) {
            Err(e) => Err(e),
            Ok(logs) => match log_value(raws.last()) {
                Ok(log) => Ok(logs.push(log)),
                Err(e) => Err(e),
            },
        }
    }
}

/// The records of a response, each through its view.
pub open spec fn raw_logs_view(raws: Seq<RawLog>) -> Seq<RawLogView> {
    raws.map_values(|w: RawLog| w@)
}

/// Decoded logs, each through its view.
pub open spec fn logs_view(logs: Seq<Log>) -> Seq<LogView> {
    logs.map_values(|l: Log| l@)
}

/// Why a fetch failed: the transport's own error, which is passed on as it
/// came, or the error of the first record that could not be decoded.
#[derive(Clone, Debug, PartialEq, Eq)]
pub enum FetchError<E> {
    Transport(E),
    Decode(DecodeError),
}

/// Whether the exec result `r` is the spec result `expected`, each side seen
/// through its view.
pub open spec fn agrees<T: View, E: View>(r: Result<T, E>, expected: Result<T::V, E::V>) -> bool {
    match r {
        Ok(v) => expected == Ok::<T::V, E::V>(v@),
        Err(e) => expected == Err::<T::V, E::V>(e@),
    }
}

fn malformed_hex(field: &str, raw: &str) -> (e: DecodeError)
    ensures
        e@ == (DecodeErrorView::MalformedHex { field: field@, raw: raw@ }),
{
    DecodeError::MalformedHex { field: field.to_owned(), raw: raw.to_owned() }
}

fn invalid_number(field: &str, raw: &str) -> (e: DecodeError)
    ensures
        e@ == (DecodeErrorView::InvalidNumber { field: field@, raw: raw@ }),
{
    DecodeError::InvalidNumber { field: field.to_owned(), raw: raw.to_owned() }
}

/// Decodes the text of a hash field named `field`.
pub fn decode_hash(field: &str, raw: &str) -> (r: Result<H256, DecodeError>)
    ensures
        agrees(r, hash_field(field@, raw@)),
{
    match H256::parse(raw) {
        Some(h) => Ok(h),
        None => Err(malformed_hex(field, raw)),
    }
}

/// Decodes the text of an address field named `field`.
pub fn decode_address(field: &str, raw: &str) -> (r: Result<Address, DecodeError>)
    ensures
        agrees(r, address_field(field@, raw@)),
{
    match Address::parse(raw) {
        Some(a) => Ok(a),
        None => Err(malformed_hex(field, raw)),
    }
}

/// Decodes the text of a byte string field named `field`.
pub fn decode_data(field: &str, raw: &str) -> (r: Result<Vec<u8>, DecodeError>)
    ensures
        agrees(r, data_field(field@, raw@)),
{
    match parse_data(raw) {
        Some(v) => Ok(v),
        None => Err(malformed_hex(field, raw)),
    }
}

/// Decodes the text of a numeric field named `field`.
pub fn decode_numeric(field: &str, raw: &str) -> (r: Result<U256, DecodeError>)
    ensures
        agrees(r, numeric_field(field@, raw@)),
{
    match U256::parse_numeral(raw) {
        Some(n) => Ok(n),
        None => Err(invalid_number(field, raw)),
    }
}

/// Decodes the text of a block number field named `field`.
pub fn decode_block_number(field: &str, raw: &str) -> (r: Result<u64, DecodeError>)
    ensures
        match r {
            Ok(n) => block_number_field(field@, raw@) == Ok::<u64, DecodeErrorView>(n),
            Err(e) => block_number_field(field@, raw@) == Err::<u64, DecodeErrorView>(e@),
        },
{
    match U256::parse_numeral(raw) {
        Some(n) => match n.to_u64() {
            Some(m) => Ok(m),
            None => Err(invalid_number(field, raw)),
        },
        None => Err(invalid_number(field, raw)),
    }
}

/// Decodes an optional index field named `field`: `raw` is its text, or
/// `None` where the record has no such field.
pub fn decode_index(field: &str, raw: Option<&str>) -> (r: Result<Option<u64>, DecodeError>)
    ensures
        match r {
            Ok(n) => index_field(field@, optional_str(raw)) == Ok::<Option<u64>, DecodeErrorView>(
                n,
            ),
            Err(e) => index_field(field@, optional_str(raw)) == Err::<
                Option<u64>,
                DecodeErrorView,
            >(e@),
        },
{
    match raw {
        None => Ok(None),
        Some(text) => {
            if !is_decimal_numeral(text) {
                return Ok(None);
            }
            match U256::parse_decimal(text) {
                Some(n) => match n.to_u64() {
                    Some(m) => Ok(Some(m)),
                    None => Err(invalid_number(field, text)),
                },
                None => Err(invalid_number(field, text)),
            }
        },
    }
}

/// The text behind an optional string slice.
pub open spec fn optional_str(s: Option<&str>) -> Option<Seq<char>> {
    match s {
        Some(t) => Some(t@),
        None => None,
    }
}

/// Decodes the texts of a field named `field` that holds a list of hashes.
pub fn decode_topics(field: &str, raw: &Vec<String>) -> (r: Result<Vec<H256>, DecodeError>)
    ensures
        match r {
            Ok(hs) => topics_field(field@, raw@.map_values(|t: String| t@)) == Ok::<
                Seq<Seq<u8>>,
                DecodeErrorView,
            >(hs@.map_values(|h: H256| h@)),
            Err(e) => topics_field(field@, raw@.map_values(|t: String| t@)) == Err::<
                Seq<Seq<u8>>,
                DecodeErrorView,
            >(e@),
        },
{
    let ghost texts = raw@.map_values(|t: String| t@);
    let mut hashes: Vec<H256> = Vec::new();
    let n: usize = raw.len();
    let mut i: usize = 0;
    assert(texts.take(0) =~= Seq::<Seq<char>>::empty());
    assert(hashes@.map_values(|h: H256| h@) =~= Seq::<Seq<u8>>::empty());
    while i < n
        invariant
            i <= n,
            n == raw@.len(),
            texts == raw@.map_values(|t: String| t@),
            topics_field(field@, texts.take(i as int)) == Ok::<Seq<Seq<u8>>, DecodeErrorView>(
                hashes@.map_values(|h: H256| h@),
            ),
        decreases n - i,
    {
        let text = raw[i].as_str();
        proof {
            let next = texts.take(i + 1);
            assert(next.drop_last() =~= texts.take(i as int));
            assert(next.last() == text@);
        }
        match decode_hash(field, text) {
            Ok(h) => {
                let ghost before = hashes@.map_values(|h: H256| h@);
                hashes.push(h);
                assert(hashes@.map_values(|h: H256| h@) =~= before.push(h@));
            },
            Err(e) => {
                proof {
                    lemma_topics_error_stays(field@, texts, i + 1);
                }
                return Err(e);
            },
        }
        i += 1;
    }
    assert(texts.take(n as int) =~= texts);
    Ok(hashes)
}

/// Once the first `k` topics fail to decode, so does the whole list, with
/// the same error.
pub proof fn lemma_topics_error_stays(field: Seq<char>, raw: Seq<Seq<char>>, k: int)
    requires
        0 <= k <= raw.len(),
        topics_field(field, raw.take(k)) is Err,
    ensures
        topics_field(field, raw) == topics_field(field, raw.take(k)),
    decreases raw.len() - k,
{
    if k == raw.len() {
        assert(raw.take(k) =~= raw);
    } else {
        let next = raw.take(k + 1);
        assert(next.drop_last() =~= raw.take(k));
        lemma_topics_error_stays(field, raw, k + 1);
    }
}

/// Once the first `k` records fail to decode, so does the whole response,
/// with the same error.
pub proof fn lemma_logs_error_stays(raws: Seq<RawLogView>, k: int)
    requires
        0 <= k <= raws.len(),
        logs_value(raws.take(k)) is Err,
    ensures
        logs_value(raws) == logs_value(raws.take(k)),
    decreases raws.len() - k,
{
    if k == raws.len() {
        assert(raws.take(k) =~= raws);
    } else {
        let next = raws.take(k + 1);
        assert(next.drop_last() =~= raws.take(k));
        lemma_logs_error_stays(raws, k + 1);
    }
}

/// The text of an optional field, borrowed.
fn optional_as_str(s: &Option<String>) -> (r: Option<&str>)
    ensures
        optional_str(r) == optional_text(*s),
{
    match s {
        Some(t) => Some(t.as_str()),
        None => None,
    }
}

/// Decodes one record.
pub fn decode_log(raw: &RawLog) -> (r: Result<Log, DecodeError>)
    ensures
        agrees(r, log_value(raw@)),
{
    let block_number = match decode_block_number("blockNumber", raw.block_number.as_str()) {
        Ok(v) => v,
        Err(e) => {
            return Err(e);
        },
    };
    let block_hash = match decode_hash("blockHash", raw.block_hash.as_str()) {
        Ok(v) => v,
        Err(e) => {
            return Err(e);
        },
    };
    let time_stamp = match decode_numeric("timeStamp", raw.time_stamp.as_str()) {
        Ok(v) => v,
        Err(e) => {
            return Err(e);
        },
    };
    let transaction_hash = match decode_hash("transactionHash", raw.transaction_hash.as_str()) {
        Ok(v) => v,
        Err(e) => {
            return Err(e);
        },
    };
    let transaction_index = match decode_index(
        "transactionIndex",
        optional_as_str(&raw.transaction_index),
    ) {
        Ok(v) => v,
        Err(e) => {
            return Err(e);
        },
    };
    let log_index = match decode_index("logIndex", optional_as_str(&raw.log_index)) {
        Ok(v) => v,
        Err(e) => {
            return Err(e);
        },
    };
    let address = match decode_address("address", raw.address.as_str()) {
        Ok(v) => v,
        Err(e) => {
            return Err(e);
        },
    };
    let gas_price = match decode_numeric("gasPrice", raw.gas_price.as_str()) {
        Ok(v) => v,
        Err(e) => {
            return Err(e);
        },
    };
    let gas_used = match decode_numeric("gasUsed", raw.gas_used.as_str()) {
        Ok(v) => v,
        Err(e) => {
            return Err(e);
        },
    };
    let topics = match decode_topics("topics", &raw.topics) {
        Ok(v) => v,
        Err(e) => {
            return Err(e);
        },
    };
    let data = match decode_data("data", raw.data.as_str()) {
        Ok(v) => v,
        Err(e) => {
            return Err(e);
        },
    };
    let log = Log {
        block_number,
        block_hash,
        time_stamp,
        transaction_hash,
        transaction_index,
        log_index,
        address,
        gas_price,
        gas_used,
        topics,
        data,
    };
    assert(log_value(raw@) == Ok::<LogView, DecodeErrorView>(log@));
    Ok(log)
}

/// Decodes the records of a response, in the order received. The first
/// record that cannot be decoded ends the decoding with its error: no part
/// of the response is returned then.
pub fn decode_logs(raws: &Vec<RawLog>) -> (r: Result<Vec<Log>, DecodeError>)
    ensures
        match r {
            Ok(logs) => logs_value(raw_logs_view(raws@)) == Ok::<Seq<LogView>, DecodeErrorView>(
                logs_view(logs@),
            ),
            Err(e) => logs_value(raw_logs_view(raws@)) == Err::<Seq<LogView>, DecodeErrorView>(
                e@,
            ),
        },
{
    let ghost records = raw_logs_view(raws@);
    let mut logs: Vec<Log> = Vec::new();
    let n: usize = raws.len();
    let mut i: usize = 0;
    assert(records.take(0) =~= Seq::<RawLogView>::empty());
    assert(logs_view(logs@) =~= Seq::<LogView>::empty());
    while i < n
        invariant
            i <= n,
            n == raws@.len(),
            records == raw_logs_view(raws@),
            logs_value(records.take(i as int)) == Ok::<Seq<LogView>, DecodeErrorView>(
                logs_view(logs@),
            ),
        decreases n - i,
    {
        proof {
            let next = records.take(i + 1);
            assert(next.drop_last() =~= records.take(i as int));
            assert(next.last() == raws@[i as int]@);
        }
        match decode_log(&raws[i]) {
            Ok(log) => {
                let ghost before = logs_view(logs@);
                logs.push(log);
                assert(logs_view(logs@) =~= before.push(log@));
            },
            Err(e) => {
                proof {
                    lemma_logs_error_stays(records, i + 1);
                }
                return Err(e);
            },
        }
        i += 1;
    }
    assert(records.take(n as int) =~= records);
    Ok(logs)
}

/// Ends a fetch with what the transport returned. An error of the transport
/// is passed on unchanged. A response is decoded record by record: all of
/// them, in the order received, or the error of the first that fails.
pub fn read_reply<E>(reply: Result<Vec<RawLog>, E>) -> (r: Result<Vec<Log>, FetchError<E>>)
    ensures
        match reply {
            Err(t) => r == Err::<Vec<Log>, FetchError<E>>(FetchError::Transport(t)),
            Ok(raws) => match r {
                Ok(logs) => logs_value(raw_logs_view(raws@)) == Ok::<
                    Seq<LogView>,
                    DecodeErrorView,
                >(logs_view(logs@)),
                Err(FetchError::Decode(e)) => logs_value(raw_logs_view(raws@)) == Err::<
                    Seq<LogView>,
                    DecodeErrorView,
                >(e@),
                Err(FetchError::Transport(_)) => false,
            },
        },
{
    match reply {
        Err(t) => Err(FetchError::Transport(t)),
        Ok(raws) => match decode_logs(&raws) {
            Ok(logs) => Ok(logs),
            Err(e) => Err(FetchError::Decode(e)),
        },
    }
}

/// A response decodes to `logs` exactly when it has as many records as
/// `logs` has entries and each record decodes to the entry in its place: the
/// logs come out one for one, in the order received.
pub proof fn lemma_logs_in_order(raws: Seq<RawLogView>, logs: Seq<LogView>)
    ensures
        logs_value(raws) == Ok::<Seq<LogView>, DecodeErrorView>(logs) <==> (logs.len()
            == raws.len() && forall|i: int|
            0 <= i < raws.len() ==> #[trigger] log_value(raws[i]) == Ok::<
                LogView,
                DecodeErrorView,
            >(logs[i])),
    decreases raws.len(),
{
    if raws.len() == 0 {
        if logs.len() == 0 {
            assert(logs =~= Seq::<LogView>::empty());
        }
    } else {
        let front = raws.drop_last();
        if logs.len() == raws.len() {
            lemma_logs_in_order(front, logs.drop_last());
            if logs_value(raws) == Ok::<Seq<LogView>, DecodeErrorView>(logs) {
                let head = logs_value(front)->Ok_0;
                let last = log_value(raws.last())->Ok_0;
                assert(logs == head.push(last));
                assert(logs.drop_last() =~= head);
                assert(logs.last() == last);
                assert forall|i: int| 0 <= i < raws.len() implies #[trigger] log_value(raws[i])
                    == Ok::<LogView, DecodeErrorView>(logs[i]) by {
                    if i < front.len() {
                        assert(front[i] == raws[i]);
                        assert(logs.drop_last()[i] == logs[i]);
                    }
                }
            }
            if forall|i: int|
                0 <= i < raws.len() ==> #[trigger] log_value(raws[i]) == Ok::<
                    LogView,
                    DecodeErrorView,
                >(logs[i]) {
                assert forall|i: int| 0 <= i < front.len() implies #[trigger] log_value(front[i])
                    == Ok::<LogView, DecodeErrorView>(logs.drop_last()[i]) by {
                    assert(front[i] == raws[i]);
                    assert(logs.drop_last()[i] == logs[i]);
                }
                assert(log_value(raws.last()) == Ok::<LogView, DecodeErrorView>(logs.last()));
                assert(logs =~= logs.drop_last().push(logs.last()));
            }
        } else {
            if logs_value(raws) == Ok::<Seq<LogView>, DecodeErrorView>(logs) {
                let head = logs_value(front)->Ok_0;
                lemma_logs_in_order(front, head);
            }
        }
    }
}

/// A response fails to decode with the error `e` exactly when some record
/// fails with `e` and every record before it decodes: one record that cannot
/// be read fails the whole response, with the error of the first such
/// record.
pub proof fn lemma_logs_first_error(raws: Seq<RawLogView>, e: DecodeErrorView)
    ensures
        logs_value(raws) == Err::<Seq<LogView>, DecodeErrorView>(e) <==> exists|k: int|
            0 <= k < raws.len() && #[trigger] log_value(raws[k]) == Err::<
                LogView,
                DecodeErrorView,
            >(e) && forall|j: int| 0 <= j < k ==> #[trigger] log_value(raws[j]) is Ok,
    decreases raws.len(),
{
    if raws.len() == 0 {
    } else {
        let front = raws.drop_last();
        let last = raws.len() - 1;
        lemma_logs_first_error(front, e);
        assert forall|j: int| 0 <= j < front.len() implies front[j] == raws[j] by {}
        if logs_value(raws) == Err::<Seq<LogView>, DecodeErrorView>(e) {
            if logs_value(front) is Err {
                let k = choose|k: int|
                    0 <= k < front.len() && #[trigger] log_value(front[k]) == Err::<
                        LogView,
                        DecodeErrorView,
                    >(e) && forall|j: int| 0 <= j < k ==> #[trigger] log_value(front[j]) is Ok;
                assert(log_value(raws[k]) == Err::<LogView, DecodeErrorView>(e));
                assert forall|j: int| 0 <= j < k implies #[trigger] log_value(raws[j]) is Ok by {
                    assert(log_value(front[j]) is Ok);
                }
            } else {
                lemma_logs_in_order(front, logs_value(front)->Ok_0);
                assert(log_value(raws[last]) == Err::<LogView, DecodeErrorView>(e));
                assert forall|j: int| 0 <= j < last implies #[trigger] log_value(raws[j]) is Ok by {
                    assert(log_value(front[j]) is Ok);
                }
            }
        }
        if exists|k: int|
            0 <= k < raws.len() && #[trigger] log_value(raws[k]) == Err::<LogView, DecodeErrorView>(
                e,
            ) && forall|j: int| 0 <= j < k ==> #[trigger] log_value(raws[j]) is Ok {
            let k = choose|k: int|
                0 <= k < raws.len() && #[trigger] log_value(raws[k]) == Err::<
                    LogView,
                    DecodeErrorView,
                >(e) && forall|j: int| 0 <= j < k ==> #[trigger] log_value(raws[j]) is Ok;
            if k < last {
                assert(log_value(front[k]) == Err::<LogView, DecodeErrorView>(e));
                assert forall|j: int| 0 <= j < k implies #[trigger] log_value(front[j]) is Ok by {
                    assert(log_value(raws[j]) is Ok);
                }
                assert(logs_value(front) == Err::<Seq<LogView>, DecodeErrorView>(e));
            } else {
                lemma_logs_all_ok(front);
            }
        }
    }
}

/// An optional index has no value where the field is absent and where its
/// text is empty; the decimal numeral of a 64-bit number, and any text of
/// decimal digits that writes one, gives exactly that number.
pub proof fn lemma_index_values(field: Seq<char>, n: u64, digits: Seq<char>)
    requires
        digits.len() > 0,
        all_dec_digits(digits),
        dec_value(digits) == n,
    ensures
        index_field(field, None) == Ok::<Option<u64>, DecodeErrorView>(None),
        index_field(field, Some(Seq::<char>::empty())) == Ok::<Option<u64>, DecodeErrorView>(None),
        index_field(field, Some(dec_text(n as nat))) == Ok::<Option<u64>, DecodeErrorView>(
            Some(n),
        ),
        index_field(field, Some(digits)) == Ok::<Option<u64>, DecodeErrorView>(Some(n)),
{
    lemma_dec_text(n as nat);
}

/// A numeric field decodes to the same number whether the explorer wrote it
/// in base sixteen or in base ten: both texts decode, to the number they
/// write, or neither does.
pub proof fn lemma_fields_cross_encoding(field: Seq<char>, hex: Seq<char>, dec: Seq<char>)
    requires
        has_hex_prefix(hex),
        hex.len() > 2,
        all_hex_digits(hex.skip(2)),
        dec.len() > 0,
        all_dec_digits(dec),
        hex_value(hex.skip(2)) == dec_value(dec),
    ensures
        numeric_field(field, hex) is Ok <==> numeric_field(field, dec) is Ok,
        numeric_field(field, hex) is Ok ==> numeric_field(field, hex)->Ok_0 == dec_value(dec)
            && numeric_field(field, dec)->Ok_0 == dec_value(dec),
        block_number_field(field, hex) is Ok <==> block_number_field(field, dec) is Ok,
        block_number_field(field, hex) is Ok ==> block_number_field(field, hex)->Ok_0
            == dec_value(dec) && block_number_field(field, dec)->Ok_0 == dec_value(dec),
{
    lemma_cross_encoding(hex, dec);
}

/// A response whose records all decode is decoded.
pub proof fn lemma_logs_all_ok(raws: Seq<RawLogView>)
    requires
        forall|j: int| 0 <= j < raws.len() ==> #[trigger] log_value(raws[j]) is Ok,
    ensures
        logs_value(raws) is Ok,
    decreases raws.len(),
{
    if raws.len() > 0 {
        let front = raws.drop_last();
        assert forall|j: int| 0 <= j < front.len() implies #[trigger] log_value(front[j]) is Ok by {
            assert(front[j] == raws[j]);
            assert(log_value(raws[j]) is Ok);
        }
        lemma_logs_all_ok(front);
        assert(log_value(raws[raws.len() - 1]) is Ok);
    }
}

} // verus!
