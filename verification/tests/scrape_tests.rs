use scraperr::dom::Document;
use scraperr::extract::{extract_elements_from_doc, find_next_page_url, resolve_selectors_from_element};
use scraperr::json::Json;
use scraperr::scrape::{custom_header_pairs, failure_json, FetchOutcome, ScrapeAction, ScrapeRun};
use scraperr::domain::job::JobStatus;
use scraperr::selector::{parse_selector, parse_xpath, parse_xpath_predicate, Extraction, SelectorKind, XpathAxis, XpathPredicate};
use serde_json::Value;

fn from_value(v: &Value) -> Json {
    match v {
        Value::Null => Json::Null,
        Value::Bool(b) => Json::Bool(*b),
        Value::Number(n) => {
            if let Some(u) = n.as_u64() {
                Json::UInt(u)
            } else if let Some(i) = n.as_i64() {
                Json::NegInt(i)
            } else {
                Json::Float(n.to_string())
            }
        }
        Value::String(s) => Json::Str(s.clone()),
        Value::Array(a) => Json::Array(a.iter().map(from_value).collect()),
        Value::Object(m) => Json::Object(m.iter().map(|(k, v)| (k.clone(), from_value(v))).collect()),
    }
}

fn to_value(j: &Json) -> Value {
    match j {
        Json::Null => Value::Null,
        Json::Bool(b) => Value::Bool(*b),
        Json::UInt(n) => Value::from(*n),
        Json::NegInt(n) => Value::from(*n),
        Json::Float(t) => serde_json::from_str(t).unwrap(),
        Json::Str(s) => Value::String(s.clone()),
        Json::Array(a) => Value::Array(a.iter().map(to_value).collect()),
        Json::Object(m) => Value::Object(m.iter().map(|(k, v)| (k.clone(), to_value(v))).collect()),
    }
}

fn parse(s: &str) -> Json {
    from_value(&serde_json::from_str::<Value>(s).unwrap())
}

fn value(s: &str) -> Value {
    serde_json::from_str(s).unwrap()
}

fn elements(s: &str) -> Vec<Json> {
    match parse(s) {
        Json::Array(v) => v,
        _ => panic!("not an array"),
    }
}

const PAGE: &str = "<html><head><title>T</title></head><body><div class=\"item\"><a href=\"/p/1\">One</a><span>1</span></div><div class=\"item\"><a href=\"/p/2\">Two</a><span>2</span></div><a class=\"next\" href=\"/page/2\">Next</a></body></html>";

const LAST_PAGE: &str = "<html><body><div class=\"item\"><a href=\"/p/3\">Three</a></div></body></html>";

#[test]
fn css_selectors_with_suffixes() {
    match parse_selector("  div.item a::attr(href) ") {
        Some((SelectorKind::Css(c), Extraction::Attribute(a))) => {
            assert_eq!(c.source(), "div.item a");
            assert_eq!(a, "href");
        }
        _ => panic!(),
    }
    assert!(matches!(parse_selector("p::html"), Some((SelectorKind::Css(_), Extraction::Html))));
    assert!(matches!(parse_selector("p::text"), Some((SelectorKind::Css(_), Extraction::Text))));
    assert!(matches!(parse_selector("p"), Some((SelectorKind::Css(_), Extraction::Text))));
    assert!(parse_selector("   ").is_none());
    assert!(parse_selector("p[").is_none());
}

#[test]
fn xpath_steps_and_predicates() {
    match parse_xpath("//div[@class='item'][2]/a/@href") {
        Some((SelectorKind::Xpath(steps), Extraction::Attribute(a))) => {
            assert_eq!(a, "href");
            assert_eq!(steps.len(), 2);
            assert_eq!(steps[0].axis, XpathAxis::Descendant);
            assert_eq!(steps[0].tag, "div");
            assert_eq!(steps[0].predicates.len(), 2);
            assert!(matches!(&steps[0].predicates[0], XpathPredicate::AttrEquals(k, v) if k == "class" && v == "item"));
            assert!(matches!(&steps[0].predicates[1], XpathPredicate::Index(2)));
            assert_eq!(steps[1].axis, XpathAxis::Child);
            assert_eq!(steps[1].tag, "a");
        }
        _ => panic!(),
    }
    match parse_selector("(//li)") {
        Some((SelectorKind::Xpath(steps), Extraction::Text)) => {
            assert_eq!(steps.len(), 1);
            assert_eq!(steps[0].tag, "li");
        }
        _ => panic!(),
    }
    match parse_selector("(//li/text())") {
        Some((SelectorKind::Xpath(steps), Extraction::Text)) => {
            assert_eq!(steps.len(), 1);
            assert_eq!(steps[0].tag, "li");
        }
        _ => panic!(),
    }
    match parse_xpath("//p/text()") {
        Some((SelectorKind::Xpath(steps), Extraction::Text)) => {
            assert_eq!(steps.len(), 1);
            assert_eq!(steps[0].axis, XpathAxis::Descendant);
            assert_eq!(steps[0].tag, "p");
            assert!(steps[0].predicates.is_empty());
        }
        _ => panic!(),
    }
    match parse_xpath("//[@id]") {
        Some((SelectorKind::Xpath(steps), _)) => assert_eq!(steps[0].tag, "*"),
        _ => panic!(),
    }
    assert!(parse_xpath("div").is_none());
}

#[test]
fn xpath_predicate_forms() {
    assert!(matches!(parse_xpath_predicate(" @href "), Some(XpathPredicate::AttrExists(a)) if a == "href"));
    assert!(matches!(parse_xpath_predicate("@id = \"main\""), Some(XpathPredicate::AttrEquals(a, v)) if a == "id" && v == "main"));
    assert!(matches!(parse_xpath_predicate("@id='x'"), Some(XpathPredicate::AttrEquals(a, v)) if a == "id" && v == "x"));
    assert!(matches!(parse_xpath_predicate("3"), Some(XpathPredicate::Index(3))));
    assert!(matches!(parse_xpath_predicate("+4"), Some(XpathPredicate::Index(4))));
    assert!(parse_xpath_predicate("last()").is_none());
}

#[test]
fn element_descriptions_give_their_selectors() {
    let el = parse("{\"name\":\"x\",\"selectors\":[\"a\",5,\"\"],\"selector\":\"b\",\"xpath\":\"//c\"}");
    let sels = resolve_selectors_from_element(&el);
    assert_eq!(sels.len(), 3);
    assert!(matches!(sels[0].0, SelectorKind::Css(_)));
    assert!(matches!(sels[1].0, SelectorKind::Css(_)));
    assert!(matches!(sels[2].0, SelectorKind::Xpath(_)));
}

#[test]
fn extracts_by_xpath_and_css() {
    let doc = Document::parse_document(PAGE);
    let els = elements(
        "[{\"name\":\"links\",\"xpath\":\"//div[@class='item']/a\"},\
          {\"name\":\"hrefs\",\"selector\":\"div.item a::attr(href)\"},\
          {\"name\":\"second\",\"xpath\":\"//div[@class='item'][2]/a\"},\
          {\"selector\":\"span\"},\
          {\"name\":\"none\"}]",
    );
    let out = extract_elements_from_doc(&doc, &els, "https://example.com/");
    let got = Value::Array(out.iter().map(to_value).collect());
    assert_eq!(
        got,
        value(
            "[{\"links\":{\"text\":\"One\"}},{\"links\":{\"text\":\"Two\"}},\
              {\"hrefs\":{\"text\":\"/p/1\"}},{\"hrefs\":{\"text\":\"/p/2\"}},\
              {\"second\":{\"text\":\"Two\"}},\
              {\"unknown\":{\"text\":\"1\"}},{\"unknown\":{\"text\":\"2\"}}]"
        )
    );
}

#[test]
fn extracts_children_within_each_match() {
    let doc = Document::parse_document(PAGE);
    let els = elements(
        "[{\"name\":\"item\",\"xpath\":\"//div[@class='item']\",\"children\":[{\"name\":\"label\",\"selector\":\"a\"}]}]",
    );
    let out = extract_elements_from_doc(&doc, &els, "https://example.com/");
    let got = Value::Array(out.iter().map(to_value).collect());
    assert_eq!(
        got,
        value(
            "[{\"item\":{\"text\":\"One 1\",\"children\":[{\"label\":{\"text\":\"One\"}}]}},\
              {\"item\":{\"text\":\"Two 2\",\"children\":[{\"label\":{\"text\":\"Two\"}}]}}]"
        )
    );
}

#[test]
fn next_page_link_is_resolved_against_the_page() {
    let doc = Document::parse_document(PAGE);
    assert_eq!(
        find_next_page_url(&doc, "a.next", "https://example.com/list/1"),
        Some("https://example.com/page/2".to_string())
    );
    assert_eq!(find_next_page_url(&doc, "a.missing", "https://example.com/"), None);
    assert_eq!(find_next_page_url(&doc, "a.next", "not a url"), None);
}

#[test]
fn a_run_follows_pages_up_to_its_limit() {
    let els = parse("[{\"name\":\"links\",\"selector\":\"div.item a\"}]");
    let opts = parse("{\"multi_page_scrape\":true,\"pagination_selector\":\"a.next\",\"max_pages\":2}");
    let mut run = ScrapeRun::new("https://example.com/".to_string(), els, Some(opts));
    match run.on_fetched(FetchOutcome::Page(PAGE.to_string())) {
        ScrapeAction::Fetch(next) => assert_eq!(next, "https://example.com/page/2"),
        _ => panic!("expected the next page"),
    }
    assert_eq!(run.pages_scraped(), 1);
    assert_eq!(run.current_url(), "https://example.com/page/2");
    match run.on_fetched(FetchOutcome::Page(LAST_PAGE.to_string())) {
        ScrapeAction::Finish(status, result) => {
            assert_eq!(status, JobStatus::Completed);
            assert_eq!(
                to_value(&result),
                value(
                    "[{\"https://example.com/\":[{\"links\":{\"text\":\"One\"}},{\"links\":{\"text\":\"Two\"}}]},\
                      {\"https://example.com/page/2\":[{\"links\":{\"text\":\"Three\"}}]}]"
                )
            );
        }
        _ => panic!("expected the end"),
    }
}

#[test]
fn a_run_stops_at_max_pages() {
    let els = parse("[{\"name\":\"links\",\"selector\":\"div.item a\"}]");
    let opts = parse("{\"multi_page_scrape\":true,\"pagination_selector\":\"a.next\",\"max_pages\":1}");
    let mut run = ScrapeRun::new("https://example.com/".to_string(), els, Some(opts));
    assert!(matches!(
        run.on_fetched(FetchOutcome::Page(PAGE.to_string())),
        ScrapeAction::Finish(JobStatus::Completed, _)
    ));
}

#[test]
fn a_single_page_run_does_not_follow_links() {
    let els = parse("[{\"name\":\"links\",\"selector\":\"div.item a\"}]");
    let mut run = ScrapeRun::new("https://example.com/".to_string(), els, None);
    assert!(matches!(
        run.on_fetched(FetchOutcome::Page(PAGE.to_string())),
        ScrapeAction::Finish(JobStatus::Completed, _)
    ));
}

#[test]
fn failed_fetches_fail_the_job() {
    let mut run = ScrapeRun::new("https://example.com/".to_string(), Json::Array(vec![]), None);
    match run.on_fetched(FetchOutcome::RequestFailed("timeout".to_string())) {
        ScrapeAction::Finish(JobStatus::Failed, r) => {
            assert_eq!(to_value(&r), value("{\"error\":\"Request failed: timeout\"}"))
        }
        _ => panic!(),
    }
    let mut run = ScrapeRun::new("https://example.com/".to_string(), Json::Array(vec![]), None);
    match run.on_fetched(FetchOutcome::BodyFailed("eof".to_string())) {
        ScrapeAction::Finish(JobStatus::Failed, r) => {
            assert_eq!(to_value(&r), value("{\"error\":\"Failed to read body: eof\"}"))
        }
        _ => panic!(),
    }
    assert_eq!(to_value(&failure_json("x".to_string())), value("{\"error\":\"x\"}"));
}

#[test]
fn only_valid_custom_headers_are_kept() {
    let opts = parse(
        "{\"custom_headers\":{\"X-Test\":\"1\",\"bad header\":\"v\",\"X-Num\":5,\"X-Bad-Value\":\"a\\u0001b\",\"X-Tab\":\"a\\tb\"}}",
    );
    let mut pairs = custom_header_pairs(&opts).unwrap();
    pairs.sort();
    assert_eq!(
        pairs,
        vec![("X-Tab".to_string(), "a\tb".to_string()), ("X-Test".to_string(), "1".to_string())]
    );
    assert_eq!(custom_header_pairs(&parse("{\"custom_headers\":[1]}")), None);
    assert_eq!(custom_header_pairs(&parse("{}")), None);
}
