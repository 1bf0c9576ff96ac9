//! A cron-style job scheduler: field parsing, next-occurrence search over a
//! civil (proleptic Gregorian, UTC) calendar, and the scheduling loop that
//! fires jobs in order of their next firing instant while recording outcomes.

pub mod calendar;
pub mod chars;
pub mod command;
pub mod editor;
pub mod errors;
pub mod history;
pub mod job;
pub mod parser;
pub mod schedule;
pub mod scheduler;

pub use calendar::DateTime;
pub use errors::CronError;
pub use history::{History, HistoryStatement, parse_history};
pub use job::{Job, parse_job, parse_jobs, render_jobs};
pub use schedule::{get_next_run, get_next_run_from, match_schedule};
