//! The decisions of the gRPC services: the bearer-token check, the job service's
//! submissions, updates and status stream, and the auth service's answers.

use vstd::prelude::*;
use vstd::string::*;
use crate::api::handlers::UserResponse;
use crate::api::oidc::{first_accepting, first_valid_claims};
use crate::entities::job;
use crate::ids::lower_hex;
use crate::json::{json_read, json_text, jsons_view, read_json_text, to_json_text, Json, JsonView};
use crate::text::{chars_of, starts_with, starts_with_at, str_eq, string_of_range, trim, trim_range, Trim};
use crate::time::Timestamp;

verus! {

/// A gRPC status that is not OK, with its message.
pub enum RpcError {
    Unauthenticated(String),
    InvalidArgument(String),
    NotFound(String),
    Internal(String),
}

/// The `authorization` metadata of a call.
pub enum AuthMetadata {
    Missing,
    /// Present, but not visible ASCII.
    Unreadable,
    Text(String),
}

/// An update of jobs through the gRPC service.
pub enum RpcUpdate {
    Status(String),
    Favorite(bool),
}

/// One message of a job's status stream.
pub struct JobStatusUpdate {
    pub id: String,
    pub status: String,
    /// The result, as JSON text, once the job is done.
    pub result_json: Option<String>,
}

/// What the status stream does after fetching the job again.
pub enum StreamStep {
    /// Send this update and fetch again later.
    Send(JobStatusUpdate),
    /// Send this update and end the stream.
    SendLast(JobStatusUpdate),
    /// Send this error and end the stream.
    Fail(RpcError),
}

/// A job as the gRPC service answers with it; its elements and result as JSON text, and its
/// creation time as seconds and nanoseconds since the Unix epoch.
pub struct JobResponse {
    pub id: String,
    pub url: String,
    pub elements_json: String,
    pub status: String,
    pub result_json: String,
    pub seconds: i64,
    pub nanos: i32,
    pub agent_mode: bool,
    pub prompt: Option<String>,
    pub favorite: bool,
}

pub struct CheckAuthResponse {
    pub registration_enabled: bool,
    pub recordings_enabled: bool,
}

pub struct AuthServiceImpl {
    pub registration_enabled: bool,
    pub recordings_enabled: bool,
}

/// What `serde_json::from_str::<bool>` accepts and returns: `true` or `false`, with JSON
/// white space around it.
pub open spec fn json_bool(s: Seq<char>) -> Option<bool> {
    let t = trim(s, Trim::JsonSpace);
    if t == "true"@ {
        Some(true)
    } else if t == "false"@ {
        Some(false)
    } else {
        None
    }
}

/// The text of the error `serde_json::from_str::<bool>` gives for `s`.
pub uninterp spec fn json_bool_error(s: Seq<char>) -> Seq<char>;

/// Trusted: `serde_json::from_str::<bool>`, with its error turned into its text. Its source
/// skips the JSON white space (space, `\n`, `\t`, `\r`), reads the literal `true` or `false`,
/// and requires nothing but white space after it; the contract says so, and names the error
/// text.
#[verifier::external_body]
fn parse_json_bool(s: &str) -> (r: Result<bool, String>)
    ensures
        match r {
            Ok(b) => json_bool(s@) == Some(b),
            Err(m) => json_bool(s@) is None && m@ == json_bool_error(s@),
        },
{
    match serde_json::from_str::<bool>(s) {
        Ok(b) => Ok(b),
        Err(e) => Err(e.to_string()),
    }
}

/// The statuses after which a job's stream ends.
pub open spec fn is_finished(status: Seq<char>) -> bool {
    status == "completed"@ || status == "error"@
}

/// A fresh id of the gRPC service: a hyphenated UUID.
pub open spec fn hyphenated_id(s: Seq<char>) -> bool {
    &&& s.len() == 36
    &&& forall|i: int|
        0 <= i < 36 ==> if i == 8 || i == 13 || i == 18 || i == 23 {
            #[trigger] s[i] == '-'
        } else {
            lower_hex(s[i])
        }
}

/// The gRPC interceptor: a call needs `authorization` metadata that reads `Bearer ` and a
/// token, and one of the provider's keys (JWKs, as JSON; `None` before they are loaded)
/// must accept the token at `now` (seconds since the Unix epoch), as for the HTTP API.
/// (Readable metadata is ASCII, so its length in characters is its length in bytes.)
pub fn check_auth(
    meta: AuthMetadata,
    keys: Option<&Vec<Json>>,
    issuer: &str,
    audience: &str,
    now: u64,
) -> (r: Result<(), RpcError>)
    ensures
        match meta {
            AuthMetadata::Missing => r matches Err(RpcError::Unauthenticated(m)) && m@
                == "Missing authorization token"@,
            AuthMetadata::Unreadable => r matches Err(RpcError::Unauthenticated(m)) && m@
                == "Invalid authorization metadata"@,
            AuthMetadata::Text(t) => if starts_with(t@, "Bearer "@) && t@.len() > 7 {
                &&& r is Ok <==> (keys matches Some(ks) && first_accepting(
                    t@.skip(7),
                    jsons_view(ks@),
                    issuer@,
                    audience@,
                    now,
                ) is Some)
                &&& r is Err ==> (r matches Err(RpcError::Unauthenticated(m)) && m@
                    == "Invalid bearer token"@)
            } else {
                r matches Err(RpcError::Unauthenticated(m)) && m@ == "Invalid bearer token format"@
            },
        },
{
    match meta {
        AuthMetadata::Missing => Err(RpcError::Unauthenticated("Missing authorization token".to_string())),
        AuthMetadata::Unreadable => Err(
            RpcError::Unauthenticated("Invalid authorization metadata".to_string()),
        ),
        AuthMetadata::Text(t) => {
            let v = chars_of(t.as_str());
            let p = chars_of("Bearer ");
            proof {
                reveal_strlit("Bearer ");
            }
            assert(v@.subrange(0, v@.len() as int) =~= v@);
            if !(starts_with_at(&v, 0, v.len(), &p) && v.len() > 7) {
                return Err(RpcError::Unauthenticated("Invalid bearer token format".to_string()));
            }
            let token = string_of_range(&v, 7, v.len());
            assert(token@ =~= t@.skip(7));
            let claims = match keys {
                Some(ks) => first_valid_claims(token.as_str(), ks, issuer, audience, now),
                None => None,
            };
            match claims {
                Some(_) => Ok(()),
                None => Err(RpcError::Unauthenticated("Invalid bearer token".to_string())),
            }
        },
    }
}

/// The job a gRPC submission stores: its own id or a fresh hyphenated UUID, status
/// `pending`, an empty result, created at `now`, with no owner, no chat, not a favorite.
pub fn submit_job_model(
    id: Option<String>,
    url: String,
    elements: Json,
    job_options: Json,
    agent_mode: bool,
    prompt: Option<String>,
    now: Timestamp,
) -> (r: job::Model)
    ensures
        match id {
            Some(i) => r.id@ == i@,
            None => hyphenated_id(r.id@),
        },
        r.url@ == url@,
        r.elements@ == elements@,
        r.status@ == "pending"@,
        r.result@ == JsonView::Array(seq![]),
        r.time_created == now,
        r.agent_mode == agent_mode,
        r.prompt == prompt,
        !r.favorite,
        r.job_options matches Some(o) && o@ == job_options@,
        r.chat is None,
        r.user is None,
{
    let id = match id {
        Some(i) => i,
        None => crate::ids::new_hyphenated_id(),
    };
    let empty = Json::array(Vec::new());
    assert(empty@ == JsonView::Array(seq![])) by {
        assert(crate::json::jsons_view(Seq::<Json>::empty()) =~= seq![]);
    }
    job::Model {
        id,
        url,
        elements,
        user: None,
        time_created: now,
        result: empty,
        status: "pending".to_string(),
        chat: None,
        job_options: Some(job_options),
        agent_mode,
        prompt,
        favorite: false,
    }
}

/// A gRPC submission, whose elements and options come as JSON texts: each text must read
/// as JSON (the elements first), else the call is refused with the reader's error; then the
/// job is stored as `submit_job_model` says.
pub fn submit_job(
    id: Option<String>,
    url: String,
    elements_json: &str,
    job_options_json: &str,
    agent_mode: bool,
    prompt: Option<String>,
    now: Timestamp,
) -> (r: Result<job::Model, RpcError>)
    ensures
        match (json_read(elements_json@), json_read(job_options_json@)) {
            (Err(e), _) => r matches Err(RpcError::InvalidArgument(m)) && m@ == "Invalid elements JSON: "@
                + e,
            (Ok(_), Err(e)) => r matches Err(RpcError::InvalidArgument(m)) && m@
                == "Invalid job_options JSON: "@ + e,
            (Ok(el), Ok(opts)) => r matches Ok(j) && j.elements@ == el && (j.job_options matches Some(
                o,
            ) && o@ == opts) && j.url@ == url@ && j.status@ == "pending"@ && j.result@ == JsonView::Array(
                seq![],
            ) && j.time_created == now && j.agent_mode == agent_mode && j.prompt == prompt
                && !j.favorite && j.chat is None && j.user is None && match id {
                Some(i) => j.id@ == i@,
                None => hyphenated_id(j.id@),
            },
        },
{
    let elements = match read_json_text(elements_json) {
        Ok(j) => j,
        Err(e) => {
            let mut m = "Invalid elements JSON: ".to_string();
            m.append(e.as_str());
            return Err(RpcError::InvalidArgument(m));
        },
    };
    let job_options = match read_json_text(job_options_json) {
        Ok(j) => j,
        Err(e) => {
            let mut m = "Invalid job_options JSON: ".to_string();
            m.append(e.as_str());
            return Err(RpcError::InvalidArgument(m));
        },
    };
    Ok(submit_job_model(id, url, elements, job_options, agent_mode, prompt, now))
}

/// Decides a gRPC update: `status` takes the value with its surrounding double quotes
/// trimmed, `favorite` a JSON boolean; any other field is refused.
pub fn update_jobs_plan(field: &str, value_json: &str) -> (r: Result<RpcUpdate, RpcError>)
    ensures
        field@ == "status"@ ==> (r matches Ok(RpcUpdate::Status(s)) && s@ == trim(
            value_json@,
            Trim::Char('"'),
        )),
        field@ == "favorite"@ ==> match json_bool(value_json@) {
            Some(b) => r matches Ok(RpcUpdate::Favorite(x)) && x == b,
            None => r matches Err(RpcError::InvalidArgument(m)) && m@ == "Invalid bool: "@
                + json_bool_error(value_json@),
        },
        field@ != "status"@ && field@ != "favorite"@ ==> (r matches Err(RpcError::InvalidArgument(m))
            && m@ == "Unknown field: "@ + field@),
{
    proof {
        reveal_strlit("status");
        reveal_strlit("favorite");
        assert("status"@.len() != "favorite"@.len());
    }
    if str_eq(field, "status") {
        let v = chars_of(value_json);
        let (a, b) = trim_range(&v, 0, v.len(), Trim::Char('"'));
        assert(v@.subrange(0, v@.len() as int) =~= v@);
        Ok(RpcUpdate::Status(string_of_range(&v, a, b)))
    } else if str_eq(field, "favorite") {
        match parse_json_bool(value_json) {
            Ok(b) => Ok(RpcUpdate::Favorite(b)),
            Err(e) => {
                let mut m = "Invalid bool: ".to_string();
                m.append(e.as_str());
                Err(RpcError::InvalidArgument(m))
            },
        }
    } else {
        let mut m = "Unknown field: ".to_string();
        m.append(field);
        Err(RpcError::InvalidArgument(m))
    }
}

/// One step of a job's status stream, after fetching the job again (`found` is `None` when
/// the fetch failed or found nothing): send its id and status, with its result as JSON text
/// once it is `completed` or `error`, after which the stream ends.
pub fn stream_step(found: Option<&job::Model>) -> (r: StreamStep)
    ensures
        match found {
            None => r matches StreamStep::Fail(RpcError::Internal(m)) && m@ == "Failed to fetch job"@,
            Some(j) => if is_finished(j.status@) {
                r matches StreamStep::SendLast(u) && u.id@ == j.id@ && u.status@ == j.status@
                    && (u.result_json matches Some(t) && t@ == json_text(j.result@))
            } else {
                r matches StreamStep::Send(u) && u.id@ == j.id@ && u.status@ == j.status@
                    && u.result_json is None
            },
        },
{
    match found {
        None => StreamStep::Fail(RpcError::Internal("Failed to fetch job".to_string())),
        Some(j) => {
            let done = str_eq(j.status.as_str(), "completed") || str_eq(j.status.as_str(), "error");
            if done {
                StreamStep::SendLast(
                    JobStatusUpdate {
                        id: j.id.clone(),
                        status: j.status.clone(),
                        result_json: Some(to_json_text(&j.result)),
                    },
                )
            } else {
                StreamStep::Send(
                    JobStatusUpdate { id: j.id.clone(), status: j.status.clone(), result_json: None },
                )
            }
        },
    }
}

/// A stored job as the gRPC service answers with it, its elements and result as JSON text.
pub fn model_to_response(j: job::Model) -> (r: JobResponse)
    ensures
        r.id == j.id,
        r.url == j.url,
        r.elements_json@ == json_text(j.elements@),
        r.status == j.status,
        r.result_json@ == json_text(j.result@),
        r.seconds == j.time_created.seconds,
        r.nanos == j.time_created.nanos as i32,
        r.agent_mode == j.agent_mode,
        r.prompt == j.prompt,
        r.favorite == j.favorite,
{
    let nanos = j.time_created.nanos as i32;
    let elements_json = to_json_text(&j.elements);
    let result_json = to_json_text(&j.result);
    JobResponse {
        id: j.id,
        url: j.url,
        elements_json,
        status: j.status,
        result_json,
        seconds: j.time_created.seconds,
        nanos,
        agent_mode: j.agent_mode,
        prompt: j.prompt,
        favorite: j.favorite,
    }
}

impl AuthServiceImpl {
    /// The caller, from the `x-user-email` and `x-user-name` metadata (an unreadable or missing
    /// email reads as empty).
    pub fn get_me(email: Option<&str>, name: Option<&str>) -> (r: UserResponse)
        ensures
            r.email@ == match email {
                Some(e) => e@,
                None => seq![],
            },
            match name {
                Some(n) => r.full_name matches Some(f) && f@ == n@,
                None => r.full_name is None,
            },
    {
        let email = match email {
            Some(e) => e.to_string(),
            None => String::new(),
        };
        let full_name = match name {
            Some(n) => Some(n.to_string()),
            None => None,
        };
        UserResponse { email, full_name }
    }

    /// Whether registration and recordings are enabled.
    pub fn check_auth(&self) -> (r: CheckAuthResponse)
        ensures
            r.registration_enabled == self.registration_enabled,
            r.recordings_enabled == self.recordings_enabled,
    {
        CheckAuthResponse {
            registration_enabled: self.registration_enabled,
            recordings_enabled: self.recordings_enabled,
        }
    }
}

} // verus!
