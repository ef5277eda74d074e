//! A broker that lets untrusted token handlers keep their own storage while
//! never receiving a caller's signing credential.
//!
//! The broker registers handlers, derives storage addresses deterministically,
//! pre-allocates storage on a handler's behalf, and builds the sub-calls that
//! carry either nothing but what the caller signed, or a credential that the
//! broker derives from its own seeds. `handler` holds the basic handler, which
//! keeps the storage layout that the broker relies on.

pub mod address;
pub mod broker;
pub mod bytes;
pub mod error;
pub mod handler;
pub mod keyed;
pub mod ledger;
pub mod registry;
pub mod relay;

pub use address::Address;
pub use broker::Broker;
pub use error::BrokerError;
pub use ledger::{Ledger, Region};
pub use registry::{Registry, TokenHandler};
pub use relay::{AccountRef, Credential, RelayCall};
