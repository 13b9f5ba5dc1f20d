//! The request for event logs: the caller's options, and the parameters the
//! explorer is asked with.
//!
//! The explorer takes `fromBlock`, `toBlock`, `page` and `offset`, each as a
//! decimal numeral, and, where the logs of one contract are wanted, its
//! `address`. Nothing is checked of the block range: a range that ends
//! before it begins is passed on as it is, and the explorer answers for it.

use crate::digits::{
    all_dec_digits, all_lower_hex_digits, dec_text, dec_value, decimal_text, has_hex_prefix,
    lemma_dec_text,
};
use crate::hash::{fixed_hex_value, lemma_bytes_round_trip, prefixed_hex_text, Address};
use vstd::prelude::*;

verus! {

/// The first block asked for where the caller names none: the first block of
/// the chain.
pub const DEFAULT_FROM_BLOCK: u64 = 0;

/// The last block asked for where the caller names none. The explorer takes
/// no larger number, and reads this one as the latest block.
pub const DEFAULT_TO_BLOCK: u64 = 99_999_999;

/// The page asked for where the caller names none.
pub const DEFAULT_PAGE: u64 = 0;

/// The number of records to a page where the caller names none.
pub const DEFAULT_OFFSET: u64 = 10_000;

/// The options of a request for logs: the range of blocks, both ends
/// included, the page, and the number of records to a page.
#[derive(Clone, Copy, Debug, PartialEq, Eq)]
pub struct LogListParams {
    pub from_block: u64,
    pub to_block: u64,
    pub page: u64,
    pub offset: u64,
}

/// The options used where the caller gives none.
pub open spec fn default_params() -> LogListParams {
    LogListParams {
        from_block: DEFAULT_FROM_BLOCK,
        to_block: DEFAULT_TO_BLOCK,
        page: DEFAULT_PAGE,
        offset: DEFAULT_OFFSET,
    }
}

/// The four parameters that the options `p` stand for, in the order in which
/// they are sent.
pub open spec fn params_query(p: LogListParams) -> Seq<(Seq<char>, Seq<char>)> {
    seq![
        ("fromBlock"@, dec_text(p.from_block as nat)),
        ("toBlock"@, dec_text(p.to_block as nat)),
        ("page"@, dec_text(p.page as nat)),
        ("offset"@, dec_text(p.offset as nat)),
    ]
}

/// The parameters of a request for logs: those of the options, or of the
/// default options where none are given, followed by the address where one
/// is given.
pub open spec fn logs_query(address: Option<Seq<u8>>, params: Option<LogListParams>) -> Seq<
    (Seq<char>, Seq<char>),
> {
    let p = match params {
        Some(p) => p,
        None => default_params(),
    };
    match address {
        Some(a) => params_query(p).push(("address"@, prefixed_hex_text(a))),
        None => params_query(p),
    }
}

/// A list of parameters with each key and value as a sequence of characters.
pub open spec fn pairs_view(q: Seq<(String, String)>) -> Seq<(Seq<char>, Seq<char>)> {
    q.map_values(|p: (String, String)| (p.0@, p.1@))
}

impl LogListParams {
    /// Options for the blocks from `start_block` to `end_block`.
    pub fn new(start_block: u64, end_block: u64, page: u64, offset: u64) -> (r: Self)
        ensures
            r == (LogListParams { from_block: start_block, to_block: end_block, page, offset }),
    {
        LogListParams { from_block: start_block, to_block: end_block, page, offset }
    }

    /// The four parameters that these options stand for.
    pub fn to_query(&self) -> (q: Vec<(String, String)>)
        ensures
            pairs_view(q@) == params_query(*self),
    {
        let mut q: Vec<(String, String)> = Vec::new();
        q.push(("fromBlock".to_owned(), decimal_text(self.from_block)));
        q.push(("toBlock".to_owned(), decimal_text(self.to_block)));
        q.push(("page".to_owned(), decimal_text(self.page)));
        q.push(("offset".to_owned(), decimal_text(self.offset)));
        assert(pairs_view(q@) =~= params_query(*self));
        q
    }
}

impl Default for LogListParams {
    fn default() -> (r: Self)
        ensures
            r == default_params(),
    {
        LogListParams {
            from_block: DEFAULT_FROM_BLOCK,
            to_block: DEFAULT_TO_BLOCK,
            page: DEFAULT_PAGE,
            offset: DEFAULT_OFFSET,
        }
    }
}

/// The text of an optional address.
pub open spec fn optional_address(address: Option<Address>) -> Option<Seq<u8>> {
    match address {
        Some(a) => Some(a@),
        None => None,
    }
}

/// The parameters to ask the explorer with: those of `params`, or of the
/// default options where `params` is `None`, and after them the address,
/// where one is given, in lower-case hexadecimal.
pub fn build_query(address: Option<Address>, params: Option<LogListParams>) -> (q: Vec<
    (String, String),
>)
    ensures
        pairs_view(q@) == logs_query(optional_address(address), params),
{
    let p = match params {
        Some(p) => p,
        None => LogListParams::default(),
    };
    let mut q = p.to_query();
    match address {
        Some(a) => {
            let ghost before = pairs_view(q@);
            q.push(("address".to_owned(), a.to_text()));
            assert(pairs_view(q@) =~= before.push(("address"@, prefixed_hex_text(a@))));
        },
        None => {},
    }
    q
}

/// Whether `key` occurs in `q` at position `i` and nowhere else.
pub open spec fn sole_key_at(q: Seq<(Seq<char>, Seq<char>)>, key: Seq<char>, i: int) -> bool {
    &&& 0 <= i < q.len()
    &&& q[i].0 == key
    &&& forall|j: int| 0 <= j < q.len() && j != i ==> (#[trigger] q[j]).0 != key
}

/// The five keys of a request are five different texts.
pub proof fn lemma_keys_differ()
    ensures
        "fromBlock"@ != "toBlock"@,
        "fromBlock"@ != "page"@,
        "fromBlock"@ != "offset"@,
        "fromBlock"@ != "address"@,
        "toBlock"@ != "page"@,
        "toBlock"@ != "offset"@,
        "toBlock"@ != "address"@,
        "page"@ != "offset"@,
        "page"@ != "address"@,
        "offset"@ != "address"@,
{
    reveal_strlit("fromBlock");
    reveal_strlit("toBlock");
    reveal_strlit("page");
    reveal_strlit("offset");
    reveal_strlit("address");
    assert("fromBlock"@.len() == 9);
    assert("toBlock"@.len() == 7);
    assert("page"@.len() == 4);
    assert("offset"@.len() == 6);
    assert("address"@.len() == 7);
    assert("toBlock"@[0] == 't');
    assert("address"@[0] == 'a');
}

/// Without options and without an address, the request asks for the blocks
/// 0 to 99999999, page 0, with 10000 records to the page, and names no
/// address.
pub proof fn lemma_default_query()
    ensures
        logs_query(None, None) == seq![
            ("fromBlock"@, "0"@),
            ("toBlock"@, "99999999"@),
            ("page"@, "0"@),
            ("offset"@, "10000"@),
        ],
        forall|i: int|
            0 <= i < logs_query(None, None).len() ==> (#[trigger] logs_query(None, None)[i]).0
                != "address"@,
{
    reveal_strlit("0");
    reveal_strlit("99999999");
    reveal_strlit("10000");
    reveal_with_fuel(dec_text, 9);
    assert(dec_text(0) =~= "0"@);
    assert(dec_text(10000) =~= "10000"@);
    assert(dec_text(99999999) =~= "99999999"@);
    lemma_keys_differ();
}

/// Whatever the options are, the request names `fromBlock`, `toBlock`,
/// `page` and `offset`, in this order and each once. Each value is a decimal
/// numeral that writes the option it stands for: digits only, none of them a
/// zero in front of another, and no prefix `0x`. The range of blocks is
/// passed on as it is, also where it ends before it begins.
pub proof fn lemma_query_of_params(address: Option<Seq<u8>>, params: LogListParams)
    ensures
        ({
            let q = logs_query(address, Some(params));
            &&& q.len() == (if address is Some {
                5int
            } else {
                4int
            })
            &&& sole_key_at(q, "fromBlock"@, 0)
            &&& sole_key_at(q, "toBlock"@, 1)
            &&& sole_key_at(q, "page"@, 2)
            &&& sole_key_at(q, "offset"@, 3)
            &&& dec_value(q[0].1) == params.from_block
            &&& dec_value(q[1].1) == params.to_block
            &&& dec_value(q[2].1) == params.page
            &&& dec_value(q[3].1) == params.offset
            &&& forall|i: int|
                0 <= i < 4 ==> {
                    let v = (#[trigger] q[i]).1;
                    &&& v.len() > 0
                    &&& all_dec_digits(v)
                    &&& !has_hex_prefix(v)
                    &&& (v[0] == '0' ==> v == seq!['0'])
                }
        }),
{
    lemma_keys_differ();
    lemma_dec_text(params.from_block as nat);
    lemma_dec_text(params.to_block as nat);
    lemma_dec_text(params.page as nat);
    lemma_dec_text(params.offset as nat);
}

/// With an address, the request names `address` exactly once, after the
/// four parameters of the options. Its value is the text of the address in
/// lower case, `0x` and 40 hexadecimal digits, which decodes to the address
/// that was given.
pub proof fn lemma_query_address(address: Seq<u8>, params: Option<LogListParams>)
    requires
        address.len() == 20,
    ensures
        ({
            let q = logs_query(Some(address), params);
            &&& q.len() == 5
            &&& sole_key_at(q, "address"@, 4)
            &&& q[4].1 == prefixed_hex_text(address)
            &&& all_lower_hex_digits(q[4].1.skip(2))
            &&& fixed_hex_value(q[4].1, 20) == Some(address)
        }),
        forall|i: int|
            0 <= i < logs_query(None, params).len() ==> (#[trigger] logs_query(None, params)[i]).0
                != "address"@,
{
    lemma_keys_differ();
    lemma_bytes_round_trip(address);
}

} // verus!
