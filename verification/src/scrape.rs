//! Running a scrape job: the decisions between fetches. The caller fetches the page the run
//! asks for and hands back what came of it; the run extracts the results, follows pagination
//! and says when the job is finished and with which status and result.

use vstd::prelude::*;
use vstd::string::*;
use crate::domain::job::JobStatus;
use crate::dom::{DocView, Document};
use crate::extract::{extract_elements_from_doc, extract_spec, find_next_page_url, next_page_spec};
use crate::json::{jsons_view, jv_array, jv_bool, jv_get, jv_object, jv_str, jv_u64, Json, JsonView};

verus! {

/// What the caller does next.
pub enum ScrapeAction {
    /// Fetch this address and report the outcome.
    Fetch(String),
    /// Store this status and result on the job; the run is over.
    Finish(JobStatus, Json),
}

pub enum ActionView {
    Fetch(Seq<char>),
    Finish(JobStatus, JsonView),
}

impl View for ScrapeAction {
    type V = ActionView;

    open spec fn view(&self) -> ActionView {
        match self {
            ScrapeAction::Fetch(u) => ActionView::Fetch(u@),
            ScrapeAction::Finish(st, r) => ActionView::Finish(*st, r@),
        }
    }
}

/// What came of a fetch.
pub enum FetchOutcome {
    /// The request failed; the error's text.
    RequestFailed(String),
    /// The body could not be read; the error's text.
    BodyFailed(String),
    /// The page's HTML.
    Page(String),
}

/// The options object of a job (`{}` when it has none).
pub open spec fn options_or_empty(o: Option<JsonView>) -> JsonView {
    match o {
        Some(v) => v,
        None => JsonView::Object(seq![]),
    }
}

pub open spec fn multi_page_of(opts: JsonView) -> bool {
    match jv_bool(jv_get(opts, "multi_page_scrape"@)) {
        Some(b) => b,
        None => false,
    }
}

pub open spec fn pagination_of(opts: JsonView) -> Seq<char> {
    match jv_str(jv_get(opts, "pagination_selector"@)) {
        Some(s) => s,
        None => seq![],
    }
}

pub open spec fn max_pages_of(opts: JsonView) -> usize {
    match jv_u64(jv_get(opts, "max_pages"@)) {
        Some(n) => n as usize,
        None => 10,
    }
}

pub open spec fn elements_of(elements: JsonView) -> Seq<JsonView> {
    match jv_array(Some(elements)) {
        Some(xs) => xs,
        None => seq![],
    }
}

/// `{ url: results }`: the results of one page.
pub open spec fn page_entry(url: Seq<char>, results: Seq<JsonView>) -> JsonView {
    JsonView::Object(seq![(url, JsonView::Array(results))])
}

/// `{ "error": msg }`: the result of a failed job.
pub open spec fn failure_result(msg: Seq<char>) -> JsonView {
    JsonView::Object(seq![("error"@, JsonView::Str(msg))])
}

pub struct ScrapeRunView {
    pub current_url: Seq<char>,
    pub pages_scraped: usize,
    pub results: Seq<JsonView>,
    pub multi_page: bool,
    pub pagination_selector: Seq<char>,
    pub max_pages: usize,
    pub elements: Seq<JsonView>,
    pub finished: bool,
}

/// The state of a scrape job between fetches.
pub struct ScrapeRun {
    current_url: String,
    pages_scraped: usize,
    results: Vec<Json>,
    multi_page: bool,
    pagination_selector: String,
    max_pages: usize,
    elements: Vec<Json>,
    finished: bool,
}

impl View for ScrapeRun {
    type V = ScrapeRunView;

    closed spec fn view(&self) -> ScrapeRunView {
        ScrapeRunView {
            current_url: self.current_url@,
            pages_scraped: self.pages_scraped,
            results: jsons_view(self.results@),
            multi_page: self.multi_page,
            pagination_selector: self.pagination_selector@,
            max_pages: self.max_pages,
            elements: jsons_view(self.elements@),
            finished: self.finished,
        }
    }
}

/// The message stored when a fetch fails.
pub open spec fn fetch_failure_message(o: FetchOutcome) -> Seq<char> {
    match o {
        FetchOutcome::RequestFailed(e) => "Request failed: "@ + e@,
        FetchOutcome::BodyFailed(e) => "Failed to read body: "@ + e@,
        FetchOutcome::Page(_) => seq![],
    }
}

/// The page to follow after a page has been scraped, if any: only when multi-page scraping
/// is on, a pagination selector is set, fewer than `max_pages` pages are done, a next link
/// is found and it differs from the current address.
pub open spec fn follow_spec(run: ScrapeRunView, page: DocView, pages_done: int) -> Option<Seq<char>> {
    if run.multi_page && run.pagination_selector.len() > 0 && pages_done < run.max_pages {
        match next_page_spec(page, run.pagination_selector, run.current_url) {
            Some(n) => if n != run.current_url {
                Some(n)
            } else {
                None
            },
            None => None,
        }
    } else {
        None
    }
}

impl ScrapeRun {
    /// Starts a run for a job with this address, element descriptions and options.
    pub fn new(url: String, elements: Json, job_options: Option<Json>) -> (r: ScrapeRun)
        ensures
            r@.current_url == url@,
            r@.pages_scraped == 0,
            r@.results == Seq::<JsonView>::empty(),
            r@.multi_page == multi_page_of(options_or_empty(opt_view(job_options))),
            r@.pagination_selector == pagination_of(options_or_empty(opt_view(job_options))),
            r@.max_pages == max_pages_of(options_or_empty(opt_view(job_options))),
            r@.elements == elements_of(elements@),
            !r@.finished,
    {
        let empty_members: Vec<(String, Json)> = Vec::new();
        proof {
            crate::json::lemma_view_object(empty_members);
            assert(Seq::new(empty_members@.len(), |i: int| (empty_members@[i].0@, empty_members@[i].1@))
                =~= Seq::<(Seq<char>, JsonView)>::empty());
        }
        let opts = match job_options {
            Some(o) => o,
            None => Json::Object(empty_members),
        };
        assert(opts@ == options_or_empty(opt_view(job_options)));
        let multi_page = match opts.get("multi_page_scrape") {
            Some(v) => match v.as_bool() {
                Some(b) => b,
                None => false,
            },
            None => false,
        };
        let pagination_selector = match opts.get("pagination_selector") {
            Some(v) => match v.as_str() {
                Some(s) => s.to_string(),
                None => String::new(),
            },
            None => String::new(),
        };
        let max_pages: usize = match opts.get("max_pages") {
            Some(v) => match v.as_u64() {
                Some(n) => n as usize,
                None => 10,
            },
            None => 10,
        };
        let ghost eg = elements;
        let elems: Vec<Json> = match elements {
            Json::Array(v) => v,
            _ => Vec::new(),
        };
        proof {
            if let Json::Array(v) = eg {
                crate::json::lemma_view_array(v);
            }
        }
        let r = ScrapeRun {
            current_url: url,
            pages_scraped: 0,
            results: Vec::new(),
            multi_page,
            pagination_selector,
            max_pages,
            elements: elems,
            finished: false,
        };
        assert(jsons_view(r.results@) =~= seq![]);
        assert(jsons_view(elems@) == elements_of(eg@)) by {
            if !(eg is Array) {
                assert(jsons_view(elems@) =~= seq![]);
            }
        }
        r
    }

    /// The address to fetch next.
    pub fn current_url(&self) -> (r: &String)
        ensures
            r@ == self@.current_url,
    {
        &self.current_url
    }

    /// How many pages have been scraped.
    pub fn pages_scraped(&self) -> (r: usize)
        ensures
            r == self@.pages_scraped,
    {
        self.pages_scraped
    }

    /// Takes in what came of fetching the current address and says what to do next.
    pub fn on_fetched(&mut self, outcome: FetchOutcome) -> (a: ScrapeAction)
        requires
            !old(self)@.finished,
            old(self)@.pages_scraped < usize::MAX,
        ensures
            match outcome {
                FetchOutcome::Page(html) => {
                    let d = DocView { source: html@, fragment: false };
                    let old_run = old(self)@;
                    let done = old_run.pages_scraped + 1;
                    let results = old_run.results.push(
                        page_entry(old_run.current_url, extract_spec(d, old_run.elements)),
                    );
                    &&& final(self)@.pages_scraped == done
                    &&& match follow_spec(old_run, d, done) {
                        Some(next) => {
                            &&& a@ == ActionView::Fetch(next)
                            &&& final(self)@.results == results
                            &&& final(self)@.current_url == next
                            &&& !final(self)@.finished
                            &&& final(self)@.pages_scraped < usize::MAX
                        },
                        None => {
                            &&& a@ == ActionView::Finish(JobStatus::Completed, JsonView::Array(results))
                            &&& final(self)@.finished
                        },
                    }
                },
                _ => {
                    &&& a@ == ActionView::Finish(
                        JobStatus::Failed,
                        failure_result(fetch_failure_message(outcome)),
                    )
                    &&& final(self)@.finished
                },
            },
            a@ is Fetch ==> final(self)@.pages_scraped < final(self)@.max_pages
                && final(self)@.pages_scraped == old(self)@.pages_scraped + 1,
            a@ is Fetch ==> old(self)@.multi_page && old(self)@.pagination_selector.len() > 0,
            !old(self)@.multi_page ==> a@ is Finish,
            final(self)@.multi_page == old(self)@.multi_page,
            final(self)@.pagination_selector == old(self)@.pagination_selector,
            final(self)@.max_pages == old(self)@.max_pages,
            final(self)@.elements == old(self)@.elements,
    {
        match outcome {
            FetchOutcome::RequestFailed(e) => {
                self.finished = true;
                let mut msg = "Request failed: ".to_string();
                msg.append(e.as_str());
                ScrapeAction::Finish(JobStatus::Failed, failure_json(msg))
            },
            FetchOutcome::BodyFailed(e) => {
                self.finished = true;
                let mut msg = "Failed to read body: ".to_string();
                msg.append(e.as_str());
                ScrapeAction::Finish(JobStatus::Failed, failure_json(msg))
            },
            FetchOutcome::Page(html) => {
                let document = Document::parse_document(html.as_str());
                let page_results = extract_elements_from_doc(
                    &document,
                    &self.elements,
                    self.current_url.as_str(),
                );
                let entry = Json::single(self.current_url.clone(), Json::array(page_results));
                let ghost before = self.results@;
                self.results.push(entry);
                assert(jsons_view(self.results@) =~= jsons_view(before).push(entry@));
                self.pages_scraped = self.pages_scraped + 1;
                if self.multi_page && !self.pagination_selector.as_str().is_empty() && self.pages_scraped
                    < self.max_pages {
                    match find_next_page_url(
                        &document,
                        self.pagination_selector.as_str(),
                        self.current_url.as_str(),
                    ) {
                        Some(next) => {
                            if !crate::text::str_eq(next.as_str(), self.current_url.as_str()) {
                                self.current_url = next.clone();
                                return ScrapeAction::Fetch(next);
                            }
                        },
                        None => {},
                    }
                }
                self.finished = true;
                let mut all: Vec<Json> = Vec::new();
                std::mem::swap(&mut all, &mut self.results);
                let r = Json::array(all);
                ScrapeAction::Finish(JobStatus::Completed, r)
            },
        }
    }
}

pub open spec fn opt_view(o: Option<Json>) -> Option<JsonView> {
    match o {
        Some(j) => Some(j@),
        None => None,
    }
}

/// `{ "error": msg }`.
pub fn failure_json(msg: String) -> (r: Json)
    ensures
        r@ == failure_result(msg@),
{
    Json::single("error".to_string(), Json::string(msg))
}


/// Whether `http::HeaderName::from_bytes` accepts the bytes of `name`.
pub uninterp spec fn header_name_accepted(name: Seq<char>) -> bool;

/// What `http::HeaderValue::from_str` accepts: every character is a tab or at least a space
/// and not DEL (the bytes of other characters are all at least 128).
pub open spec fn header_value_accepted(value: Seq<char>) -> bool {
    forall|i: int| 0 <= i < value.len() ==> (value[i] == '\t' || (32 <= (#[trigger] value[i]) as u32 && value[i] as u32 != 127))
}

/// Trusted: `reqwest::header::HeaderName::from_bytes` on the bytes of `name`; the contract
/// names whether it succeeds.
#[verifier::external_body]
fn header_name_ok(name: &str) -> (r: bool)
    ensures
        r == header_name_accepted(name@),
{
    reqwest::header::HeaderName::from_bytes(name.as_bytes()).is_ok()
}

/// Trusted: `reqwest::header::HeaderValue::from_str`, which accepts exactly the strings whose
/// bytes are tabs or in 32..=255 without 127.
#[verifier::external_body]
fn header_value_ok(value: &str) -> (r: bool)
    ensures
        r == header_value_accepted(value@),
{
    reqwest::header::HeaderValue::from_str(value).is_ok()
}

/// The custom headers kept from an options object's members: those whose value is a string
/// and whose name and value are valid header text.
pub open spec fn valid_header_pairs(m: Seq<(Seq<char>, JsonView)>) -> Seq<(Seq<char>, Seq<char>)>
    decreases m.len(),
{
    if m.len() == 0 {
        seq![]
    } else {
        valid_header_pairs(m.drop_last()) + match m.last().1 {
            JsonView::Str(v) => if header_name_accepted(m.last().0) && header_value_accepted(v) {
                seq![(m.last().0, v)]
            } else {
                seq![]
            },
            _ => seq![],
        }
    }
}

/// The default headers of a job's HTTP client: `None` when `custom_headers` is not an
/// object (no default headers are set), else the valid pairs in order.
pub open spec fn header_pairs_spec(opts: JsonView) -> Option<Seq<(Seq<char>, Seq<char>)>> {
    match jv_object(jv_get(opts, "custom_headers"@)) {
        Some(m) => Some(valid_header_pairs(m)),
        None => None,
    }
}

pub open spec fn pairs_view(v: Seq<(String, String)>) -> Seq<(Seq<char>, Seq<char>)> {
    v.map_values(|p: (String, String)| (p.0@, p.1@))
}

/// The custom headers a job's options ask for.
pub fn custom_header_pairs(job_options: &Json) -> (r: Option<Vec<(String, String)>>)
    ensures
        match r {
            Some(v) => header_pairs_spec(job_options@) == Some(pairs_view(v@)),
            None => header_pairs_spec(job_options@) is None,
        },
{
    let headers = match job_options.get("custom_headers") {
        Some(h) => h,
        None => {
            return None;
        },
    };
    match headers {
        Json::Object(m) => {
            let ghost mv = Seq::new(m@.len(), |i: int| (m@[i].0@, m@[i].1@));
            proof {
                crate::json::lemma_view_object(*m);
            }
            let mut out: Vec<(String, String)> = Vec::new();
            let mut i: usize = 0;
            assert(mv.take(0) =~= seq![]);
            assert(pairs_view(out@) =~= seq![]);
            while i < m.len()
                invariant
                    i <= m@.len(),
                    mv.len() == m@.len(),
                    forall|k: int| 0 <= k < m@.len() ==> #[trigger] mv[k] == (m@[k].0@, m@[k].1@),
                    pairs_view(out@) == valid_header_pairs(mv.take(i as int)),
                decreases m@.len() - i,
            {
                assert(mv.take(i + 1).drop_last() =~= mv.take(i as int));
                assert(mv.take(i + 1).last() == mv[i as int]);
                let ghost before = out@;
                match m[i].1.as_str() {
                    Some(v) => {
                        if header_name_ok(m[i].0.as_str()) && header_value_ok(v) {
                            out.push((m[i].0.clone(), v.to_string()));
                            assert(pairs_view(out@) =~= pairs_view(before).push((m@[i as int].0@, v@)));
                        } else {
                            assert(pairs_view(before) + seq![] =~= pairs_view(before));
                        }
                    },
                    None => {
                        assert(pairs_view(before) + seq![] =~= pairs_view(before));
                    },
                }
                i = i + 1;
            }
            assert(mv.take(i as int) =~= mv);
            Some(out)
        },
        _ => None,
    }
}

} // verus!
