use scraperr::entities::job;
use scraperr::json::Json;
use scraperr::services::ai::{AiConfig, AiError, AiService, ChatMessage};
use scraperr::services::stats::StatsService;
use scraperr::time::Timestamp;
use serde_json::Value;

const DAY: i64 = 86_400;

fn to_value(j: &Json) -> Value {
    match j {
        Json::Null => Value::Null,
        Json::Bool(b) => Value::Bool(*b),
        Json::UInt(n) => Value::from(*n),
        Json::NegInt(n) => Value::from(*n),
        Json::Float(t) => serde_json::from_str(t).unwrap(),
        Json::Str(s) => Value::String(s.clone()),
        Json::Array(a) => Value::Array(a.iter().map(to_value).collect()),
        Json::Object(m) => Value::Object(m.iter().map(|(k, v)| (k.clone(), to_value(v))).collect()),
    }
}

fn job_at(seconds: i64, offset_seconds: i32, elements: usize) -> job::Model {
    job::Model {
        id: format!("j{seconds}"),
        url: "https://e.com/".to_string(),
        elements: Json::Array((0..elements).map(|_| Json::Null).collect()),
        user: Some("a@b.c".to_string()),
        time_created: Timestamp { seconds, nanos: 0, offset_seconds },
        result: Json::Array(vec![]),
        status: "Queued".to_string(),
        chat: None,
        job_options: None,
        agent_mode: false,
        prompt: None,
        favorite: false,
    }
}

#[test]
fn times_display_as_chrono_does() {
    let t = Timestamp { seconds: 0, nanos: 0, offset_seconds: 0 };
    assert_eq!(t.display(), "1970-01-01 00:00:00 +00:00");
    assert_eq!(t.date(), "1970-01-01");
    let t = Timestamp { seconds: 0, nanos: 0, offset_seconds: 3600 };
    assert_eq!(t.display(), "1970-01-01 01:00:00 +01:00");
    let t = Timestamp { seconds: 0, nanos: 0, offset_seconds: -3600 };
    assert_eq!(t.date(), "1969-12-31");
    let t = Timestamp { seconds: 0, nanos: 0, offset_seconds: 100_000 };
    assert_eq!(t.display(), "");
}

#[test]
fn jobs_are_counted_per_day_in_order() {
    let jobs = vec![
        job_at(3 * DAY + 5, 0, 1),
        job_at(DAY, 0, 2),
        job_at(3 * DAY + 100, 0, 0),
        job_at(DAY + 7, 0, 4),
        job_at(2 * DAY, 0, 3),
    ];
    let per_day = StatsService::get_jobs_per_day(&jobs);
    let got: Vec<(String, i64)> = per_day.into_iter().map(|d| (d.date, d.job_count)).collect();
    assert_eq!(
        got,
        vec![
            ("1970-01-02".to_string(), 2),
            ("1970-01-03".to_string(), 1),
            ("1970-01-04".to_string(), 2),
        ]
    );
}

#[test]
fn day_counts_add_up_to_the_jobs() {
    let jobs: Vec<job::Model> = (0..20).map(|k| job_at((k * 7919 % 5) * DAY + k, 0, k as usize)).collect();
    let per_day = StatsService::get_jobs_per_day(&jobs);
    let total: i64 = per_day.iter().map(|d| d.job_count).sum();
    assert_eq!(total, 20);
    let elements = StatsService::get_avg_elements_per_link(&jobs);
    let totals: u128 = elements.iter().map(|d| d.total_elements).sum();
    assert_eq!(totals, (0..20u128).sum());
    let counts: i64 = elements.iter().map(|d| d.count).sum();
    assert_eq!(counts, 20);
    for w in per_day.windows(2) {
        assert!(w[0].date < w[1].date);
    }
}

#[test]
fn element_totals_per_day() {
    let jobs = vec![job_at(DAY, 0, 2), job_at(DAY + 1, 0, 4), job_at(0, 0, 3)];
    let mut jobs = jobs;
    jobs[2].elements = Json::Object(vec![]);
    let per_day = StatsService::get_avg_elements_per_link(&jobs);
    let got: Vec<(String, u128, i64)> = per_day.into_iter().map(|d| (d.date, d.total_elements, d.count)).collect();
    assert_eq!(
        got,
        vec![("1970-01-01".to_string(), 0, 1), ("1970-01-02".to_string(), 6, 2)]
    );
}

#[test]
fn days_follow_the_offset_of_each_job() {
    let jobs = vec![job_at(0, -3600, 1), job_at(0, 0, 1)];
    let per_day = StatsService::get_jobs_per_day(&jobs);
    let got: Vec<String> = per_day.into_iter().map(|d| d.date).collect();
    assert_eq!(got, vec!["1969-12-31".to_string(), "1970-01-01".to_string()]);
}

#[test]
fn no_jobs_no_days() {
    assert!(StatsService::get_jobs_per_day(&vec![]).is_empty());
    assert!(StatsService::get_avg_elements_per_link(&vec![]).is_empty());
}

#[test]
fn assistant_configuration() {
    let none = AiConfig { openai_key: None, openai_model: None, ollama_url: None, ollama_model: None };
    assert!(!none.is_enabled());
    assert!(!AiService::check(&none));
    let ollama = AiConfig { openai_key: None, openai_model: None, ollama_url: Some("http://o".to_string()), ollama_model: None };
    assert!(ollama.is_enabled());
    assert!(matches!(AiService::chat_request(&ollama, &vec![], true), Err(AiError::NotConfigured)));
}

#[test]
fn chat_requests_carry_model_and_messages() {
    let cfg = AiConfig { openai_key: Some("k".to_string()), openai_model: None, ollama_url: None, ollama_model: None };
    let msgs = vec![ChatMessage { role: "user".to_string(), content: "hi".to_string() }];
    let req = match AiService::chat_request(&cfg, &msgs, true) {
        Ok(r) => r,
        Err(_) => panic!(),
    };
    assert_eq!(req.key, "k");
    assert_eq!(req.model, "gpt-4.1-mini");
    assert_eq!(
        to_value(&req.body),
        serde_json::from_str::<Value>(
            "{\"model\":\"gpt-4.1-mini\",\"messages\":[{\"role\":\"user\",\"content\":\"hi\"}],\"stream\":true}"
        )
        .unwrap()
    );
    let cfg = AiConfig { openai_key: Some("k".to_string()), openai_model: Some("m".to_string()), ollama_url: None, ollama_model: None };
    let req = match AiService::chat_request(&cfg, &msgs, false) {
        Ok(r) => r,
        Err(_) => panic!(),
    };
    assert_eq!(
        to_value(&req.body),
        serde_json::from_str::<Value>("{\"model\":\"m\",\"messages\":[{\"role\":\"user\",\"content\":\"hi\"}]}").unwrap()
    );
}

#[test]
fn completion_content_is_read() {
    let resp = Json::Object(vec![(
        "choices".to_string(),
        Json::Array(vec![Json::Object(vec![(
            "message".to_string(),
            Json::Object(vec![("content".to_string(), Json::Str("hello".to_string()))]),
        )])]),
    )]);
    assert_eq!(AiService::completion_content(&resp), "hello");
    assert_eq!(AiService::completion_content(&Json::Object(vec![])), "");
    assert_eq!(AiService::completion_content(&Json::Object(vec![("choices".to_string(), Json::Array(vec![]))])), "");
    match AiService::response_error("500 Internal Server Error", "oops") {
        AiError::RequestFailed(m) => assert_eq!(m, "500 Internal Server Error: oops"),
        _ => panic!(),
    }
}
