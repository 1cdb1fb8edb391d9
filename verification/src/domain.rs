pub mod cron;
pub mod job;
pub mod user;
