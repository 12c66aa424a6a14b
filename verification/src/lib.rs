//! Core of an NZB download engine: the per-article damage ledger and the path
//! checks shared by download and post-processing.

pub mod damage_ledger;
pub mod ledger_laws;
pub mod ledger_store;
pub mod path;
pub mod row_laws;
pub mod server_set;
pub mod text;
pub mod timestamp;
pub mod verdict_laws;

pub use damage_ledger::{
    server_fingerprint, ArticleKey, ConfirmNeeded, Consult, LedgerRecord, LedgerState, Outcome,
};
pub use timestamp::Timestamp;
