use scraperr::domain::job::{default_true, JobStatus, UpdatableJobField};
use scraperr::json::Json;
use scraperr::services::jobs::{JobError, JobService, SubmitPlan, UpdatePlan};
use scraperr::services::auth::{AuthError, AuthService, UserPlan};
use scraperr::services::cron::CronService;
use scraperr::domain::cron::CronJobInput;
use scraperr::entities::{job, user};
use scraperr::time::Timestamp;

fn ts(seconds: i64) -> Timestamp {
    Timestamp { seconds, nanos: 0, offset_seconds: 0 }
}

fn sample_job(id: &str, user: Option<&str>) -> job::Model {
    job::Model {
        id: id.to_string(),
        url: "https://example.com".to_string(),
        elements: Json::Array(vec![]),
        user: user.map(|u| u.to_string()),
        time_created: ts(0),
        result: Json::Array(vec![]),
        status: "Queued".to_string(),
        chat: None,
        job_options: None,
        agent_mode: false,
        prompt: None,
        favorite: false,
    }
}

#[test]
fn status_names_round_trip() {
    for st in [JobStatus::Queued, JobStatus::Scraping, JobStatus::Completed, JobStatus::Failed] {
        let name = st.to_string();
        assert_eq!(JobStatus::parse(&name), Ok(st));
    }
    assert_eq!(JobStatus::Completed.name(), "Completed");
}

#[test]
fn unknown_status_is_refused() {
    assert_eq!(JobStatus::parse("queued"), Err("Unknown job status: queued".to_string()));
    assert_eq!(JobStatus::parse(""), Err("Unknown job status: ".to_string()));
}

#[test]
fn updatable_fields_parse() {
    assert_eq!(UpdatableJobField::parse("status"), Ok(UpdatableJobField::Status));
    assert_eq!(UpdatableJobField::parse("favorite"), Ok(UpdatableJobField::Favorite));
    assert_eq!(UpdatableJobField::parse("chat"), Ok(UpdatableJobField::Chat));
    assert_eq!(UpdatableJobField::parse("result"), Ok(UpdatableJobField::Result));
    assert_eq!(
        UpdatableJobField::parse("url"),
        Err("Field 'url' is not updatable".to_string())
    );
}

#[test]
fn do_once_defaults_to_true() {
    assert!(default_true());
}

#[test]
fn resubmission_resets_the_job() {
    let plan = JobService::submit_plan(
        "abc".to_string(),
        true,
        "https://example.com".to_string(),
        Json::Array(vec![]),
        "a@b.c",
        Json::Object(vec![]),
        false,
        None,
        ts(5),
    );
    match plan {
        SubmitPlan::Reset { id, status, result } => {
            assert_eq!(id, "abc");
            assert_eq!(status, "Queued");
            assert_eq!(result, Json::Array(vec![]));
        }
        SubmitPlan::Create(_) => panic!("expected a reset"),
    }
}

#[test]
fn new_submission_creates_a_queued_job() {
    let plan = JobService::submit_plan(
        "abc".to_string(),
        false,
        "https://example.com".to_string(),
        Json::Array(vec![Json::Str("x".to_string())]),
        "a@b.c",
        Json::Object(vec![]),
        true,
        Some("find prices".to_string()),
        ts(7),
    );
    match plan {
        SubmitPlan::Create(m) => {
            assert_eq!(m.id, "abc");
            assert_eq!(m.user.as_deref(), Some("a@b.c"));
            assert_eq!(m.status, "Queued");
            assert_eq!(m.result, Json::Array(vec![]));
            assert_eq!(m.time_created, ts(7));
            assert!(m.chat.is_none());
            assert_eq!(m.job_options, Some(Json::Object(vec![])));
            assert!(m.agent_mode);
            assert_eq!(m.prompt.as_deref(), Some("find prices"));
            assert!(!m.favorite);
        }
        SubmitPlan::Reset { .. } => panic!("expected a new job"),
    }
}

#[test]
fn fresh_job_ids_are_simple_uuids() {
    let id = JobService::resolve_id(None);
    assert_eq!(id.len(), 32);
    assert!(id.chars().all(|c| c.is_ascii_digit() || ('a'..='f').contains(&c)));
    assert_eq!(JobService::resolve_id(Some("mine".to_string())), "mine");
}

#[test]
fn only_the_owner_sees_a_job() {
    match JobService::check_owner(None, "j1", "a@b.c") {
        Err(JobError::NotFound(m)) => assert_eq!(m, "j1"),
        _ => panic!("expected not found"),
    }
    assert!(matches!(
        JobService::check_owner(Some(sample_job("j1", Some("x@y.z"))), "j1", "a@b.c"),
        Err(JobError::Forbidden)
    ));
    assert!(matches!(
        JobService::check_owner(Some(sample_job("j1", None)), "j1", "a@b.c"),
        Err(JobError::Forbidden)
    ));
    match JobService::check_owner(Some(sample_job("j1", Some("a@b.c"))), "j1", "a@b.c") {
        Ok(j) => assert_eq!(j.id, "j1"),
        _ => panic!("expected the job"),
    }
}

#[test]
fn updates_read_their_values() {
    match JobService::update_plan("status", Json::Str("Completed".to_string())) {
        Ok(UpdatePlan::Status(s)) => assert_eq!(s, "Completed"),
        _ => panic!(),
    }
    match JobService::update_plan("status", Json::UInt(3)) {
        Ok(UpdatePlan::Status(s)) => assert_eq!(s, "Unknown"),
        _ => panic!(),
    }
    match JobService::update_plan("favorite", Json::Bool(true)) {
        Ok(UpdatePlan::Favorite(b)) => assert!(b),
        _ => panic!(),
    }
    match JobService::update_plan("favorite", Json::Str("yes".to_string())) {
        Ok(UpdatePlan::Favorite(b)) => assert!(!b),
        _ => panic!(),
    }
    match JobService::update_plan("chat", Json::Null) {
        Ok(UpdatePlan::Chat(c)) => assert_eq!(c, Json::Null),
        _ => panic!(),
    }
    match JobService::update_plan("result", Json::Array(vec![])) {
        Ok(UpdatePlan::Result(c)) => assert_eq!(c, Json::Array(vec![])),
        _ => panic!(),
    }
    match JobService::update_plan("owner", Json::Null) {
        Err(JobError::InvalidField(m)) => assert_eq!(m, "Field 'owner' is not updatable"),
        _ => panic!(),
    }
}

#[test]
fn sign_in_provisions_or_refuses() {
    match AuthService::ensure_user_plan(None, "new@x.y", Some("New User")) {
        Ok(UserPlan::Provision(m)) => {
            assert_eq!(m.email, "new@x.y");
            assert_eq!(m.hashed_password, "");
            assert_eq!(m.full_name.as_deref(), Some("New User"));
            assert!(!m.disabled);
        }
        _ => panic!(),
    }
    let stored = user::Model {
        email: "old@x.y".to_string(),
        hashed_password: "h".to_string(),
        full_name: None,
        disabled: false,
    };
    match AuthService::ensure_user_plan(Some(stored), "old@x.y", Some("Ignored")) {
        Ok(UserPlan::Existing(u)) => {
            assert_eq!(u.email, "old@x.y");
            assert!(u.full_name.is_none());
            assert!(!u.disabled);
        }
        _ => panic!(),
    }
    let disabled = user::Model {
        email: "off@x.y".to_string(),
        hashed_password: String::new(),
        full_name: None,
        disabled: true,
    };
    assert!(matches!(
        AuthService::ensure_user_plan(Some(disabled), "off@x.y", None),
        Err(AuthError::UserDisabled)
    ));
}

#[test]
fn schedules_keep_or_make_their_id() {
    let input = CronJobInput {
        id: None,
        user_email: "a@b.c".to_string(),
        job_id: "j1".to_string(),
        cron_expression: "* * * * *".to_string(),
    };
    let m = CronService::schedule_record(input, ts(9));
    assert_eq!(m.id.len(), 32);
    assert_eq!(m.user_email, "a@b.c");
    assert_eq!(m.job_id, "j1");
    assert_eq!(m.cron_expression, "* * * * *");
    assert_eq!(m.time_created, ts(9));
    assert_eq!(m.time_updated, ts(9));
    let input = CronJobInput {
        id: Some("c1".to_string()),
        user_email: "a@b.c".to_string(),
        job_id: "j1".to_string(),
        cron_expression: "0 * * * *".to_string(),
    };
    assert_eq!(CronService::schedule_record(input, ts(9)).id, "c1");
}

#[test]
fn names_parse_through_from_str() {
    assert_eq!("Failed".parse::<JobStatus>(), Ok(JobStatus::Failed));
    assert_eq!("favorite".parse::<UpdatableJobField>(), Ok(UpdatableJobField::Favorite));
    assert!("Favorite".parse::<UpdatableJobField>().is_err());
}
