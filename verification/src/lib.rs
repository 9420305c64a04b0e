//! Verified core of the kijuku media database: snapshot diffs, backup
//! bookkeeping, configuration merging and the small text formats they use.

pub mod attribute;
pub mod audit;
pub mod backup;
pub mod bulk;
pub mod bytes;
pub mod config;
pub mod crud;
pub mod db_value;
pub mod diff;
pub mod error;
pub mod exec_local;
pub mod file_ops;
pub mod gate;
pub mod hash;
pub mod import;
pub mod listing;
pub mod ops;
pub mod order;
pub mod page_diff;
pub mod prompt;
pub mod records;
pub mod retention;
pub mod summary;
pub mod table;
pub mod tally;
pub mod text;
pub mod transfer;
pub mod transfer_flow;
pub mod transfer_run;
pub mod types;

pub use error::{KijukuError, Result};
