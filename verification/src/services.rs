pub mod ai;
pub mod auth;
pub mod cron;
pub mod jobs;
pub mod stats;
