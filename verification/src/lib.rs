//! The core of a secrets-custody engine.
//!
//! Secrets are kept in protected memory, in vaults of encrypted records that
//! belong to clients, and in encrypted snapshots that can be merged.
//!
//! - Locked memories hold a payload so that it is in the clear only inside a
//!   [`buffer::Buffer`]: masked into a file ([`file_memory`]), or split into
//!   shards ([`shards`]).
//! - A [`vault::Vault`] keeps records sealed under its key; a
//!   [`client::ClientState`] keeps the vaults and the store of one client; the
//!   [`router::Router`] keeps the clients and sends operations to one of
//!   them; [`procedure`] lets a procedure of the embedding program work on
//!   secrets without handing them out.
//! - [`snapshot`] writes the state of all clients as bytes and reads it back;
//!   [`sync`] merges two snapshots into a third.
//! - [`zone`] runs a computation in a child process.
//!
//! The library never touches the file system or the process table itself.
//! Every operation on the outside world is described as a request that the
//! embedding program performs, and whose outcome it reports back.

pub mod buffer;
pub mod cipher;
pub mod client;
pub mod codec;
pub mod entropy;
pub mod error;
pub mod file_memory;
pub mod ids;
pub mod laws;
pub mod mask;
pub mod order;
pub mod procedure;
pub mod router;
pub mod shards;
pub mod snapshot;
pub mod store;
pub mod sync;
pub mod table;
pub mod task;
pub mod transaction;
pub mod transfer;
pub mod vault;
mod wipe;
pub mod zone;
