//! A flexitime tracker's rules: minutes and dates, break deductions, day
//! statistics and balances, holidays, parsing of times, dates and imports.
pub mod date;
pub mod balance;
pub mod booking;
pub mod breaks;
pub mod clock;
pub mod config;
pub mod error;
pub mod forms;
pub mod holidays;
pub mod keys;
pub mod import;
pub mod minutes;
pub mod month;
pub mod periods;
pub mod replies;
pub mod report;
pub mod screen;
pub mod sharing;
pub mod stats;
pub mod tally;
pub mod text;
pub mod time_parse;
pub mod types;
pub mod ui;
