//! Core of a container-orchestration control plane: an engine that manages
//! isolated execution environments ("enclaves"), the services running inside
//! them, a chunked artifact-transfer protocol with hash-chain integrity
//! checking, and a deterministic script execution engine that streams an
//! ordered record of everything it did.
//!
//! - [`chunk`]: the transfer protocol; [`store`]: the artifact store it
//!   feeds; [`hashing`]: the digest the chain relies on.
//! - [`ident`]: identifier resolution (UUID, name, or UUID prefix);
//!   [`uuid`]: UUID minting and shortened UUIDs.
//! - [`service`], [`enclave`]: the registries; [`partition`]: network
//!   partitioning of services.
//! - [`script`]: interpretation and validation; [`schedule`]: the
//!   dependency-respecting wave scheduler; [`events`]: the single ordered
//!   event stream; [`engine`]: the run engine tying them together.
//! - [`poll`]: the endpoint-availability retry policy.
use vstd::prelude::*;

pub mod bytes;
pub mod chunk;
pub mod enclave;
pub mod engine;
pub mod events;
pub mod hashing;
pub mod ident;
pub mod partition;
pub mod poll;
pub mod schedule;
pub mod script;
pub mod service;
pub mod store;
pub mod text;
pub mod uuid;

verus! {

} // verus!
