//! Submitting, reading and updating jobs: the decisions the service makes around the store.

use vstd::prelude::*;
use vstd::string::*;
use crate::domain::job::{field_named, JobStatus, UpdatableJobField};
use crate::entities::job;
use crate::json::{jv_bool, jv_str, Json, JsonView};
use crate::time::Timestamp;

verus! {

/// Why a job request failed.
pub enum JobError {
    NotFound(String),
    Forbidden,
    InvalidField(String),
    Database(sea_orm::DbErr),
}

/// What submitting a job does to the store.
pub enum SubmitPlan {
    /// The job exists: set its status and result back to these.
    Reset { id: String, status: String, result: Json },
    /// Store this new job.
    Create(job::Model),
}

/// What an update writes to each of the jobs named.
pub enum UpdatePlan {
    Status(String),
    Favorite(bool),
    Chat(Json),
    Result(Json),
}

/// The status stored by an update of `status`: the value when it is a string, else
/// `Unknown`.
pub open spec fn status_value(v: JsonView) -> Seq<char> {
    match jv_str(Some(v)) {
        Some(s) => s,
        None => "Unknown"@,
    }
}

/// The flag stored by an update of `favorite`: the value when it is a boolean, else false.
pub open spec fn favorite_value(v: JsonView) -> bool {
    match jv_bool(Some(v)) {
        Some(b) => b,
        None => false,
    }
}

pub struct JobService;

impl JobService {
    /// The id a submission uses: its own, or a fresh one (32 lowercase hexadecimal digits).
    pub fn resolve_id(id: Option<String>) -> (r: String)
        ensures
            match id {
                Some(i) => r@ == i@,
                None => r@.len() == 32 && forall|k: int| 0 <= k < 32 ==> crate::ids::lower_hex(#[trigger] r@[k]),
            },
    {
        match id {
            Some(i) => i,
            None => crate::ids::new_simple_id(),
        }
    }

    /// Decides a submission: a job already stored under `id` is queued again with an empty
    /// result; otherwise a new queued job owned by `user_email` is stored, created at `now`,
    /// with an empty result, no chat, not a favorite.
    pub fn submit_plan(
        id: String,
        already_stored: bool,
        url: String,
        elements: Json,
        user_email: &str,
        job_options: Json,
        agent_mode: bool,
        prompt: Option<String>,
        now: Timestamp,
    ) -> (r: SubmitPlan)
        ensures
            already_stored ==> (r matches SubmitPlan::Reset { id: i, status: s, result: res }
                && i@ == id@ && s@ == "Queued"@ && res@ == JsonView::Array(seq![])),
            !already_stored ==> (r matches SubmitPlan::Create(m) && m.id@ == id@ && m.url@ == url@
                && m.elements@ == elements@ && (m.user matches Some(u) && u@ == user_email@)
                && m.time_created == now && m.result@ == JsonView::Array(seq![]) && m.status@
                == "Queued"@ && m.chat is None && (m.job_options matches Some(o) && o@ == job_options@)
                && m.agent_mode == agent_mode && m.prompt == prompt && !m.favorite),
    {
        let empty = Json::array(Vec::new());
        assert(empty@ == JsonView::Array(seq![])) by {
            assert(crate::json::jsons_view(Seq::<Json>::empty()) =~= seq![]);
        }
        if already_stored {
            return SubmitPlan::Reset { id, status: JobStatus::Queued.to_string(), result: empty };
        }
        SubmitPlan::Create(
            job::Model {
                id,
                url,
                elements,
                user: Some(user_email.to_string()),
                time_created: now,
                result: empty,
                status: JobStatus::Queued.to_string(),
                chat: None,
                job_options: Some(job_options),
                agent_mode,
                prompt,
                favorite: false,
            },
        )
    }

    /// A job is shown only to its owner: `NotFound` when there is none under `id`,
    /// `Forbidden` when it belongs to someone else.
    pub fn check_owner(found: Option<job::Model>, id: &str, user_email: &str) -> (r: Result<job::Model, JobError>)
        ensures
            match found {
                None => r matches Err(JobError::NotFound(m)) && m@ == id@,
                Some(j) => if (j.user matches Some(u) && u@ == user_email@) {
                    r matches Ok(k) && k == j
                } else {
                    r matches Err(JobError::Forbidden)
                },
            },
    {
        match found {
            None => Err(JobError::NotFound(id.to_string())),
            Some(j) => {
                let owned = match &j.user {
                    Some(u) => crate::text::str_eq(u.as_str(), user_email),
                    None => false,
                };
                if owned {
                    Ok(j)
                } else {
                    Err(JobError::Forbidden)
                }
            },
        }
    }

    /// Decides an update: the field must be updatable, and the value is read as that field
    /// reads it.
    pub fn update_plan(field: &str, value: Json) -> (r: Result<UpdatePlan, JobError>)
        ensures
            match field_named(field@) {
                None => r matches Err(JobError::InvalidField(m)) && m@ == "Field '"@ + field@
                    + "' is not updatable"@,
                Some(UpdatableJobField::Status) => r matches Ok(UpdatePlan::Status(s)) && s@
                    == status_value(value@),
                Some(UpdatableJobField::Favorite) => r matches Ok(UpdatePlan::Favorite(b)) && b
                    == favorite_value(value@),
                Some(UpdatableJobField::Chat) => r matches Ok(UpdatePlan::Chat(c)) && c@ == value@,
                Some(UpdatableJobField::Result) => r matches Ok(UpdatePlan::Result(c)) && c@
                    == value@,
            },
    {
        let f = match UpdatableJobField::parse(field) {
            Ok(f) => f,
            Err(m) => {
                return Err(JobError::InvalidField(m));
            },
        };
        match f {
            UpdatableJobField::Status => {
                let s = match value.as_str() {
                    Some(s) => s.to_string(),
                    None => "Unknown".to_string(),
                };
                Ok(UpdatePlan::Status(s))
            },
            UpdatableJobField::Favorite => {
                let b = match value.as_bool() {
                    Some(b) => b,
                    None => false,
                };
                Ok(UpdatePlan::Favorite(b))
            },
            UpdatableJobField::Chat => Ok(UpdatePlan::Chat(value)),
            UpdatableJobField::Result => Ok(UpdatePlan::Result(value)),
        }
    }
}

} // verus!
