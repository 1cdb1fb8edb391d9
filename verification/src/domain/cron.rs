//! Requests to run a job on a schedule.

use vstd::prelude::*;

verus! {

/// A cron schedule as a user submits it.
pub struct CronJobInput {
    pub id: Option<String>,
    pub user_email: String,
    pub job_id: String,
    pub cron_expression: String,
}

} // verus!
