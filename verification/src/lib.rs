//! Partition compaction engine: the planning rules, bookkeeping and decision
//! logic of a compactor for time-series parquet files, with machine-checked
//! contracts.

pub mod catalog;
pub mod classify;
pub mod done_sink;
pub mod driver;
pub mod error;
pub mod file;
pub mod flightsql;
pub mod hot_partitions;
pub mod http_error;
pub mod literal;
pub mod partition_filter;
pub mod partition_run;
pub mod partitions_source;
pub mod permits;
pub mod plan;
pub mod querier;
pub mod round;
pub mod skipped_compactions_source;
pub mod timeout;
