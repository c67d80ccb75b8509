//! Decoding of factory "pair created" event logs into typed pair records, and
//! reconciliation of the token metadata registry against a batch of such records.

pub mod address;
pub mod decode;
pub mod reconcile;
pub mod records;
pub mod registry;
pub mod retry;

pub use address::{parse_address, Address};
pub use decode::{decode, decode_logs, DecodeError, DecodedBatch, Protocol, RawLogEntry};
pub use reconcile::plan_fetches;
pub use records::{CamelotPair, PairInfo, PairRecord, TokenInfo, VeloPair};
pub use registry::{FetchOutcome, FetchReport, TokenRegistry};
pub use retry::RetryPolicy;
