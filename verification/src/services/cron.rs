//! Scheduling jobs to run again on a cron expression.

use vstd::prelude::*;
use crate::domain::cron::CronJobInput;
use crate::entities::cron_job;
use crate::time::Timestamp;

verus! {

pub enum CronError {
    NotFound(String),
    Database(sea_orm::DbErr),
}

pub struct CronService;

impl CronService {
    /// The record a schedule is stored as: its own id when it has one, else a fresh one (32
    /// lowercase hexadecimal digits), created and updated at `now`.
    pub fn schedule_record(input: CronJobInput, now: Timestamp) -> (r: cron_job::Model)
        ensures
            match input.id {
                Some(i) => r.id@ == i@,
                None => r.id@.len() == 32 && forall|k: int| 0 <= k < 32 ==> crate::ids::lower_hex(#[trigger] r.id@[k]),
            },
            r.user_email@ == input.user_email@,
            r.job_id@ == input.job_id@,
            r.cron_expression@ == input.cron_expression@,
            r.time_created == now,
            r.time_updated == now,
    {
        let id = match input.id {
            Some(i) => i,
            None => crate::ids::new_simple_id(),
        };
        cron_job::Model {
            id,
            user_email: input.user_email,
            job_id: input.job_id,
            cron_expression: input.cron_expression,
            time_created: now,
            time_updated: now,
        }
    }
}

} // verus!
