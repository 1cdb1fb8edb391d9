//! The API's errors and how each is answered.

use vstd::prelude::*;
use vstd::std_specs::convert::FromSpecImpl;
use crate::json::{Json, JsonView};
use crate::services::ai::AiError;
use crate::services::cron::CronError;
use crate::services::jobs::JobError;
use crate::services::stats::StatsError;

verus! {

/// An error of a request.
pub enum AppError {
    NotFound(String),
    Unauthorized(String),
    Forbidden,
    Validation(String),
    Internal(String),
    Database(sea_orm::DbErr),
}

/// The HTTP status an error is answered with.
pub open spec fn error_status(e: AppError) -> u16 {
    match e {
        AppError::NotFound(_) => 404,
        AppError::Unauthorized(_) => 401,
        AppError::Forbidden => 403,
        AppError::Validation(_) => 422,
        AppError::Internal(_) => 500,
        AppError::Database(_) => 500,
    }
}

/// The message an error is answered with; a database error's own text is not shown.
pub open spec fn error_message(e: AppError) -> Seq<char> {
    match e {
        AppError::NotFound(m) => m@,
        AppError::Unauthorized(m) => m@,
        AppError::Forbidden => "Forbidden"@,
        AppError::Validation(m) => m@,
        AppError::Internal(m) => m@,
        AppError::Database(_) => "Internal server error"@,
    }
}

impl AppError {
    /// The status and message of the answer to this error.
    pub fn status_and_message(self) -> (r: (u16, String))
        ensures
            r.0 == error_status(self),
            r.1@ == error_message(self),
    {
        match self {
            AppError::NotFound(m) => (404, m),
            AppError::Unauthorized(m) => (401, m),
            AppError::Forbidden => (403, "Forbidden".to_string()),
            AppError::Validation(m) => (422, m),
            AppError::Internal(m) => (500, m),
            AppError::Database(_) => (500, "Internal server error".to_string()),
        }
    }

    /// The body of the answer: `{"error": message}`.
    pub fn error_body(message: String) -> (r: Json)
        ensures
            r@ == JsonView::Object(seq![("error"@, JsonView::Str(message@))]),
    {
        Json::single("error".to_string(), Json::string(message))
    }
}

pub open spec fn from_job_error(e: JobError) -> AppError {
    match e {
        JobError::NotFound(m) => AppError::NotFound(m),
        JobError::Forbidden => AppError::Forbidden,
        JobError::InvalidField(m) => AppError::Validation(m),
        JobError::Database(d) => AppError::Database(d),
    }
}

pub open spec fn from_cron_error(e: CronError) -> AppError {
    match e {
        CronError::NotFound(m) => AppError::NotFound(m),
        CronError::Database(d) => AppError::Database(d),
    }
}

pub open spec fn from_stats_error(e: StatsError) -> AppError {
    match e {
        StatsError::Database(d) => AppError::Database(d),
    }
}

impl From<sea_orm::DbErr> for AppError {
    fn from(e: sea_orm::DbErr) -> (r: AppError) {
        AppError::Database(e)
    }
}

impl FromSpecImpl<sea_orm::DbErr> for AppError {
    open spec fn obeys_from_spec() -> bool {
        true
    }

    open spec fn from_spec(e: sea_orm::DbErr) -> AppError {
        AppError::Database(e)
    }
}

impl From<JobError> for AppError {
    fn from(e: JobError) -> (r: AppError) {
        match e {
            JobError::NotFound(m) => AppError::NotFound(m),
            JobError::Forbidden => AppError::Forbidden,
            JobError::InvalidField(m) => AppError::Validation(m),
            JobError::Database(d) => AppError::Database(d),
        }
    }
}

impl FromSpecImpl<JobError> for AppError {
    open spec fn obeys_from_spec() -> bool {
        true
    }

    open spec fn from_spec(e: JobError) -> AppError {
        from_job_error(e)
    }
}

impl From<CronError> for AppError {
    fn from(e: CronError) -> (r: AppError) {
        match e {
            CronError::NotFound(m) => AppError::NotFound(m),
            CronError::Database(d) => AppError::Database(d),
        }
    }
}

impl FromSpecImpl<CronError> for AppError {
    open spec fn obeys_from_spec() -> bool {
        true
    }

    open spec fn from_spec(e: CronError) -> AppError {
        from_cron_error(e)
    }
}

impl From<StatsError> for AppError {
    fn from(e: StatsError) -> (r: AppError) {
        match e {
            StatsError::Database(d) => AppError::Database(d),
        }
    }
}

impl FromSpecImpl<StatsError> for AppError {
    open spec fn obeys_from_spec() -> bool {
        true
    }

    open spec fn from_spec(e: StatsError) -> AppError {
        from_stats_error(e)
    }
}

impl AppError {
    /// An AI error is an internal one: not configured, or the service's failure message.
    pub fn from_ai(e: AiError) -> (r: AppError)
        ensures
            match e {
                AiError::NotConfigured => r matches AppError::Internal(m) && m@ == "AI not configured"@,
                AiError::RequestFailed(m) => r == AppError::Internal(m),
            },
    {
        match e {
            AiError::NotConfigured => AppError::Internal("AI not configured".to_string()),
            AiError::RequestFailed(m) => AppError::Internal(m),
        }
    }
}

} // verus!
