//! A row of the cron jobs table.

use vstd::prelude::*;
use crate::time::Timestamp;

verus! {

/// A schedule on which a job is run again.
pub struct Model {
    pub id: String,
    pub user_email: String,
    pub job_id: String,
    pub cron_expression: String,
    pub time_created: Timestamp,
    pub time_updated: Timestamp,
}

} // verus!
