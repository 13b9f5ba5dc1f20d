//! Event logs of a block explorer: the request parameters that ask for them,
//! and the decoding of the records that come back.

pub mod digits;
pub mod hash;
pub mod logs;
pub mod query;
pub mod uint;
