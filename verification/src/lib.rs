//! Bookkeeping of the sst files of a table.

pub mod channel;
pub mod file_set;
mod filter;
pub mod flag;
pub mod handle;
pub mod laws;
pub mod level;
pub mod level_handler;
pub mod meta;
pub mod purge;
pub mod purger;
pub mod time;
