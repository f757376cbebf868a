//! Engine of a wallet daemon: it keeps per-monitor views over a synchronized
//! ledger, tracks the unspent outputs of every monitor, and plans transactions
//! that spend them.
//!
//! The state of the engine is a [`database::Database`] of three stores: the
//! monitors ([`monitor_store`]), their subaddresses ([`subaddress_index`]) and
//! their unspent outputs ([`utxo_store`]). The scan of the ledger
//! ([`sync`]) fills and empties the last of them block by block, and
//! [`replay`] shows that a scan which is cut short and run again loses and
//! doubles nothing. A transaction is built in stages ([`builder`]) from the
//! inputs that [`selection`] chooses, the decoys that [`decoys`] collects and
//! the fee of [`fee`]. [`connection`] decides where remote calls go and how
//! often they are tried, [`notify`] tells the foreground of processed blocks,
//! and [`codec`], [`snapshot`] and [`metadata`] give the records their
//! persistent form. Everything can fail only with an [`error::Error`].

pub mod builder;
pub mod codec;
pub mod connection;
pub mod database;
pub mod decoys;
pub mod error;
pub mod fee;
pub mod keyed;
pub mod laws;
pub mod metadata;
pub mod monitor_store;
pub mod notify;
pub mod replay;
pub mod selection;
pub mod snapshot;
pub mod subaddress_index;
pub mod sync;
pub mod types;
pub mod utxo_store;
