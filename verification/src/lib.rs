//! Verified core of a UTXO-chain indexing pipeline.
//!
//! Blocks arrive already decoded into plain data (`ledger`); a dependency-ordered
//! task graph (`executor`) turns them into relational rows held by an in-memory,
//! transactional `store`. Entity resolution for addresses, native assets and
//! spent outputs lives in `era_common` and `assets`; protocol-specific decoding
//! of exchange-pool datums lives in the `dex` modules.

pub mod lex;
pub mod codecs;
pub mod ledger;
pub mod store;
pub mod era_common;
pub mod assets;
pub mod dex;
pub mod sundaeswap_v1;
pub mod wingriders_v1;
pub mod minswap_v1;
pub mod executor;
pub mod byron;
