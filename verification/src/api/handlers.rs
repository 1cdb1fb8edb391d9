//! The bodies the HTTP handlers take and answer with, and what they answer.

use vstd::prelude::*;
use crate::api::config::AppConfig;
use crate::api::oidc::AuthenticatedUser;
use crate::domain::cron::CronJobInput;

verus! {

/// What the login page needs to know.
pub struct AuthCheckResponse {
    pub registration: bool,
    pub recordings_enabled: bool,
}

/// The signed-in user.
pub struct UserResponse {
    pub email: String,
    pub full_name: Option<String>,
}

pub struct ScheduleCronJobRequest {
    pub id: Option<String>,
    pub user_email: String,
    pub job_id: String,
    pub cron_expression: String,
}

pub struct DeleteCronJobRequest {
    pub id: String,
    pub user_email: String,
}

pub struct SubmitJobResponse {
    pub id: String,
    pub message: String,
}

pub struct DeleteJobsRequest {
    pub ids: Vec<String>,
}

pub struct DownloadJobRequest {
    pub ids: Vec<String>,
    pub job_format: String,
}

/// Whether registration and recordings are enabled.
pub fn check_auth(config: &AppConfig) -> (r: AuthCheckResponse)
    ensures
        r.registration == config.registration_enabled,
        r.recordings_enabled == config.recordings_enabled,
{
    AuthCheckResponse {
        registration: config.registration_enabled,
        recordings_enabled: config.recordings_enabled,
    }
}

/// The user a request is made by, as the client shows it.
pub fn get_me(user: AuthenticatedUser) -> (r: UserResponse)
    ensures
        r.email == user.email,
        r.full_name == user.name,
{
    UserResponse { email: user.email, full_name: user.name }
}

impl ScheduleCronJobRequest {
    /// The schedule the request asks for.
    pub fn into_input(self) -> (r: CronJobInput)
        ensures
            r.id == self.id,
            r.user_email == self.user_email,
            r.job_id == self.job_id,
            r.cron_expression == self.cron_expression,
    {
        CronJobInput {
            id: self.id,
            user_email: self.user_email,
            job_id: self.job_id,
            cron_expression: self.cron_expression,
        }
    }
}

impl SubmitJobResponse {
    /// The answer to a submitted job.
    pub fn submitted(id: String) -> (r: SubmitJobResponse)
        ensures
            r.id == id,
            r.message@ == "Job submitted successfully."@,
    {
        SubmitJobResponse { id, message: "Job submitted successfully.".to_string() }
    }
}

} // verus!
