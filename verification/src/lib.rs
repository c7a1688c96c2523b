//! Job scheduling core: interval and cron parsing, job records and the
//! job registry that decides which jobs are due.
pub mod cron;
pub mod error;
pub mod executor;
pub mod interval;
pub mod job;
pub mod registry;
pub mod scheduler;
pub mod text;
pub mod time_utils;
