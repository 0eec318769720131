//! A personal checkbook ledger: dated transactions, a running balance,
//! categories with case-insensitive names, and conversion between the ledger
//! and the formats other bookkeeping tools read and write.

pub mod add;
pub mod batch;
pub mod changes;
pub mod create;
pub mod database;
pub mod date;
pub mod date_range;
pub mod decimal;
pub mod errors;
pub mod export;
pub mod format;
pub mod import;
pub mod list;
pub mod order;
pub mod period;
pub mod qif;
pub mod records;
pub mod remove;
pub mod round_trip;
pub mod summary;
pub mod text;
pub mod transaction;
pub mod update;
