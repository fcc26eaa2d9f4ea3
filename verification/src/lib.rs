//! A bridge between a synchronous virtual-machine call model and an
//! asynchronous, receipt-based cross-contract call model.
//!
//! The crate holds the versioned key space of the bridge's persistent state,
//! the wire format of a bridging call, the gas cost model, the per-caller
//! router state machine and the dispatcher that ties them together. Every
//! function carries a contract. Verus proves each of them, but for the few
//! functions that read and write the leaves of the wire format by calling
//! into `borsh`: what those state is taken on trust.

mod borsh_fields;
pub mod costs;
pub mod decimal;
pub mod dispatcher;
pub mod error;
pub mod little_endian;
pub mod promise;
pub mod router;
pub mod storage;
pub mod types;
pub mod wire;
