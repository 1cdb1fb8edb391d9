pub mod cron_job;
pub mod job;
pub mod user;
