//! Log-structured storage of replicated documents in a byte-keyed store whose entries can
//! be written out and read back, and the client side of their synchronisation protocol.
pub mod keys;
pub mod kv;
pub mod crdt;
pub mod doc;
pub mod pending;
pub mod sink;
pub mod plugin;
pub mod row;
pub mod database;
pub mod sync;
