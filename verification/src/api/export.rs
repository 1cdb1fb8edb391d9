//! Downloading jobs: their results as CSV rows, or the jobs as Markdown.

use vstd::prelude::*;
use vstd::string::*;
use crate::api::error::AppError;
use crate::entities::job;
use crate::json::{
    json_pretty, jsons_view, jv_get, jv_str, lemma_view_array, lemma_view_object, to_json_pretty, Json,
    JsonView,
};
use crate::text::{chars_of, push_char, str_eq, trim, trim_range, Trim};
use crate::time::text_of_time;

verus! {

/// A downloaded file: its content type, its `Content-Disposition` and its text.
pub struct Export {
    pub content_type: String,
    pub disposition: String,
    pub body: String,
}

/// What every row says of its job: id, URL, owner (empty if none) and creation time.
pub struct RowJob {
    pub id: Seq<char>,
    pub url: Seq<char>,
    pub user: Seq<char>,
    pub time: Seq<char>,
}

pub open spec fn row_job(j: job::Model) -> RowJob {
    RowJob {
        id: j.id@,
        url: j.url@,
        user: match j.user {
            Some(u) => u@,
            None => seq![],
        },
        time: text_of_time(j.time_created),
    }
}

/// `s` with each double quote doubled.
pub open spec fn escape_quotes(s: Seq<char>) -> Seq<char>
    decreases s.len(),
{
    if s.len() == 0 {
        seq![]
    } else {
        escape_quotes(s.drop_last()) + if s.last() == '"' {
            seq!['"', '"']
        } else {
            seq![s.last()]
        }
    }
}

pub open spec fn quoted(s: Seq<char>) -> Seq<char> {
    seq!['"'] + s + seq!['"']
}

/// A CSV row: the seven fields, each in double quotes, separated by commas.
pub open spec fn csv_row(j: RowJob, name: Seq<char>, xpath: Seq<char>, text: Seq<char>) -> Seq<char> {
    quoted(j.id) + seq![','] + quoted(j.url) + seq![','] + quoted(name) + seq![','] + quoted(xpath)
        + seq![','] + quoted(text) + seq![','] + quoted(j.user) + seq![','] + quoted(j.time) + seq![
        '\n',
    ]
}

/// The string a member holds, or the empty string.
pub open spec fn str_or_empty(v: Option<JsonView>) -> Seq<char> {
    match jv_str(v) {
        Some(s) => s,
        None => seq![],
    }
}

/// The row of one extracted value of element `name`: none when its text is blank.
pub open spec fn value_row(j: RowJob, name: Seq<char>, val: JsonView) -> Seq<char> {
    let text = escape_quotes(str_or_empty(jv_get(val, "text"@)));
    let xpath = str_or_empty(jv_get(val, "xpath"@));
    if trim(text, Trim::Whitespace).len() == 0 {
        seq![]
    } else {
        csv_row(j, name, xpath, text)
    }
}

pub open spec fn values_rows(j: RowJob, name: Seq<char>, vals: Seq<JsonView>) -> Seq<char>
    decreases vals.len(),
{
    if vals.len() == 0 {
        seq![]
    } else {
        values_rows(j, name, vals.drop_last()) + value_row(j, name, vals.last())
    }
}

/// The rows of the elements of one page: each member maps an element's name to the array
/// of its values.
pub open spec fn names_rows(j: RowJob, ms: Seq<(Seq<char>, JsonView)>) -> Seq<char>
    decreases ms.len(),
{
    if ms.len() == 0 {
        seq![]
    } else {
        names_rows(j, ms.drop_last()) + match ms.last().1 {
            JsonView::Array(vals) => values_rows(j, ms.last().0, vals),
            _ => seq![],
        }
    }
}

/// The rows of one result item: each member maps a page's URL to its elements.
pub open spec fn urls_rows(j: RowJob, ms: Seq<(Seq<char>, JsonView)>) -> Seq<char>
    decreases ms.len(),
{
    if ms.len() == 0 {
        seq![]
    } else {
        urls_rows(j, ms.drop_last()) + match ms.last().1 {
            JsonView::Object(names) => names_rows(j, names),
            _ => seq![],
        }
    }
}

pub open spec fn items_rows(j: RowJob, items: Seq<JsonView>) -> Seq<char>
    decreases items.len(),
{
    if items.len() == 0 {
        seq![]
    } else {
        items_rows(j, items.drop_last()) + match items.last() {
            JsonView::Object(urls) => urls_rows(j, urls),
            _ => seq![],
        }
    }
}

/// The rows of a job: those of each item of its result array.
pub open spec fn job_rows(j: job::Model) -> Seq<char> {
    match j.result@ {
        JsonView::Array(items) => items_rows(row_job(j), items),
        _ => seq![],
    }
}

pub open spec fn jobs_rows(jobs: Seq<job::Model>) -> Seq<char>
    decreases jobs.len(),
{
    if jobs.len() == 0 {
        seq![]
    } else {
        jobs_rows(jobs.drop_last()) + job_rows(jobs.last())
    }
}

pub open spec fn csv_header() -> Seq<char> {
    "id,url,element_name,xpath,text,user,time_created\n"@
}

/// The CSV export: the header, then the rows of each job.
pub open spec fn csv_document(jobs: Seq<job::Model>) -> Seq<char> {
    csv_header() + jobs_rows(jobs)
}

/// The Markdown section of a job, with its result as pretty-printed JSON.
pub open spec fn job_section(j: job::Model) -> Seq<char> {
    "# Job: "@ + j.id@ + "\n\n"@ + "**URL:** "@ + j.url@ + "\n\n"@ + "**Results:**\n```json\n"@
        + json_pretty(j.result@) + "\n```\n\n"@
}

pub open spec fn markdown_document(jobs: Seq<job::Model>) -> Seq<char>
    decreases jobs.len(),
{
    if jobs.len() == 0 {
        seq![]
    } else {
        markdown_document(jobs.drop_last()) + job_section(jobs.last())
    }
}

pub open spec fn object_view(m: Seq<(String, Json)>) -> Seq<(Seq<char>, JsonView)> {
    Seq::new(m.len(), |i: int| (m[i].0@, m[i].1@))
}

/// The fields of a job that each of its rows repeats.
struct RowHead {
    id: String,
    url: String,
    user: String,
    time: String,
}

impl RowHead {
    spec fn view(&self) -> RowJob {
        RowJob { id: self.id@, url: self.url@, user: self.user@, time: self.time@ }
    }
}

fn push_quoted(out: &mut String, s: &str)
    ensures
        final(out)@ == old(out)@ + quoted(s@),
{
    push_char(out, '"');
    out.append(s);
    push_char(out, '"');
    assert(final(out)@ =~= old(out)@ + quoted(s@));
}

fn push_row(out: &mut String, h: &RowHead, name: &str, xpath: &str, text: &str)
    ensures
        final(out)@ == old(out)@ + csv_row(h.view(), name@, xpath@, text@),
{
    push_quoted(out, h.id.as_str());
    push_char(out, ',');
    push_quoted(out, h.url.as_str());
    push_char(out, ',');
    push_quoted(out, name);
    push_char(out, ',');
    push_quoted(out, xpath);
    push_char(out, ',');
    push_quoted(out, text);
    push_char(out, ',');
    push_quoted(out, h.user.as_str());
    push_char(out, ',');
    push_quoted(out, h.time.as_str());
    push_char(out, '\n');
    assert(final(out)@ =~= old(out)@ + csv_row(h.view(), name@, xpath@, text@));
}

/// `s` with each double quote doubled.
fn escape_quotes_exec(s: &str) -> (r: String)
    ensures
        r@ == escape_quotes(s@),
{
    let v = chars_of(s);
    let mut out = String::new();
    let mut i: usize = 0;
    while i < v.len()
        invariant
            v@ == s@,
            i <= v@.len(),
            out@ == escape_quotes(v@.take(i as int)),
        decreases v@.len() - i,
    {
        assert(v@.take(i + 1).drop_last() =~= v@.take(i as int));
        if v[i] == '"' {
            push_char(&mut out, '"');
            push_char(&mut out, '"');
        } else {
            push_char(&mut out, v[i]);
        }
        assert(out@ =~= escape_quotes(v@.take(i + 1)));
        i = i + 1;
    }
    assert(v@.take(v@.len() as int) =~= v@);
    out
}

/// The string a member of `val` holds, or the empty string.
fn member_str(val: &Json, key: &str) -> (r: String)
    ensures
        r@ == str_or_empty(jv_get(val@, key@)),
{
    match val.get(key) {
        Some(t) => match t.as_str() {
            Some(s) => s.to_string(),
            None => String::new(),
        },
        None => String::new(),
    }
}

fn push_value_row(out: &mut String, h: &RowHead, name: &str, val: &Json)
    ensures
        final(out)@ == old(out)@ + value_row(h.view(), name@, val@),
{
    let raw = member_str(val, "text");
    let text = escape_quotes_exec(raw.as_str());
    let xpath = member_str(val, "xpath");
    let v = chars_of(text.as_str());
    let (a, b) = trim_range(&v, 0, v.len(), Trim::Whitespace);
    assert(v@.subrange(0, v@.len() as int) =~= v@);
    if a < b {
        push_row(out, h, name, xpath.as_str(), text.as_str());
    } else {
        assert(final(out)@ =~= old(out)@ + seq![]);
    }
}

fn push_values_rows(out: &mut String, h: &RowHead, name: &str, vals: &Vec<Json>)
    ensures
        final(out)@ == old(out)@ + values_rows(h.view(), name@, jsons_view(vals@)),
{
    let ghost start = out@;
    let ghost vs = jsons_view(vals@);
    let mut i: usize = 0;
    assert(vs.take(0) =~= Seq::<JsonView>::empty());
    assert(out@ =~= start + values_rows(h.view(), name@, vs.take(0)));
    while i < vals.len()
        invariant
            vs == jsons_view(vals@),
            i <= vals@.len(),
            out@ == start + values_rows(h.view(), name@, vs.take(i as int)),
        decreases vals@.len() - i,
    {
        assert(vs.take(i + 1).drop_last() =~= vs.take(i as int));
        push_value_row(out, h, name, &vals[i]);
        assert(out@ =~= start + values_rows(h.view(), name@, vs.take(i + 1)));
        i = i + 1;
    }
    assert(vs.take(vals@.len() as int) =~= vs);
}

fn push_names_rows(out: &mut String, h: &RowHead, members: &Vec<(String, Json)>)
    ensures
        final(out)@ == old(out)@ + names_rows(h.view(), object_view(members@)),
{
    let ghost start = out@;
    let ghost ms = object_view(members@);
    let mut i: usize = 0;
    assert(ms.take(0) =~= Seq::<(Seq<char>, JsonView)>::empty());
    assert(out@ =~= start + names_rows(h.view(), ms.take(0)));
    while i < members.len()
        invariant
            ms == object_view(members@),
            i <= members@.len(),
            out@ == start + names_rows(h.view(), ms.take(i as int)),
        decreases members@.len() - i,
    {
        assert(ms.take(i + 1).drop_last() =~= ms.take(i as int));
        match &members[i].1 {
            Json::Array(vals) => {
                proof {
                    lemma_view_array(*vals);
                }
                push_values_rows(out, h, members[i].0.as_str(), vals);
            },
            _ => {},
        }
        assert(out@ =~= start + names_rows(h.view(), ms.take(i + 1)));
        i = i + 1;
    }
    assert(ms.take(members@.len() as int) =~= ms);
}

fn push_urls_rows(out: &mut String, h: &RowHead, members: &Vec<(String, Json)>)
    ensures
        final(out)@ == old(out)@ + urls_rows(h.view(), object_view(members@)),
{
    let ghost start = out@;
    let ghost ms = object_view(members@);
    let mut i: usize = 0;
    assert(ms.take(0) =~= Seq::<(Seq<char>, JsonView)>::empty());
    assert(out@ =~= start + urls_rows(h.view(), ms.take(0)));
    while i < members.len()
        invariant
            ms == object_view(members@),
            i <= members@.len(),
            out@ == start + urls_rows(h.view(), ms.take(i as int)),
        decreases members@.len() - i,
    {
        assert(ms.take(i + 1).drop_last() =~= ms.take(i as int));
        match &members[i].1 {
            Json::Object(names) => {
                proof {
                    lemma_view_object(*names);
                }
                push_names_rows(out, h, names);
            },
            _ => {},
        }
        assert(out@ =~= start + urls_rows(h.view(), ms.take(i + 1)));
        i = i + 1;
    }
    assert(ms.take(members@.len() as int) =~= ms);
}

fn push_items_rows(out: &mut String, h: &RowHead, items: &Vec<Json>)
    ensures
        final(out)@ == old(out)@ + items_rows(h.view(), jsons_view(items@)),
{
    let ghost start = out@;
    let ghost vs = jsons_view(items@);
    let mut i: usize = 0;
    assert(vs.take(0) =~= Seq::<JsonView>::empty());
    assert(out@ =~= start + items_rows(h.view(), vs.take(0)));
    while i < items.len()
        invariant
            vs == jsons_view(items@),
            i <= items@.len(),
            out@ == start + items_rows(h.view(), vs.take(i as int)),
        decreases items@.len() - i,
    {
        assert(vs.take(i + 1).drop_last() =~= vs.take(i as int));
        match &items[i] {
            Json::Object(urls) => {
                proof {
                    lemma_view_object(*urls);
                }
                push_urls_rows(out, h, urls);
            },
            _ => {},
        }
        assert(out@ =~= start + items_rows(h.view(), vs.take(i + 1)));
        i = i + 1;
    }
    assert(vs.take(items@.len() as int) =~= vs);
}

fn push_job_rows(out: &mut String, j: &job::Model)
    ensures
        final(out)@ == old(out)@ + job_rows(*j),
{
    let user = match &j.user {
        Some(u) => u.clone(),
        None => String::new(),
    };
    let h = RowHead { id: j.id.clone(), url: j.url.clone(), user, time: j.time_created.display() };
    assert(h.view() == row_job(*j));
    match &j.result {
        Json::Array(items) => {
            proof {
                lemma_view_array(*items);
            }
            push_items_rows(out, &h, items);
        },
        _ => {
            assert(final(out)@ =~= old(out)@ + seq![]);
        },
    }
}

/// The CSV export of `jobs`.
pub fn csv_export(jobs: &Vec<job::Model>) -> (r: String)
    ensures
        r@ == csv_document(jobs@),
{
    let mut out = "id,url,element_name,xpath,text,user,time_created\n".to_string();
    let mut i: usize = 0;
    assert(jobs@.take(0) =~= Seq::<job::Model>::empty());
    assert(out@ =~= csv_header() + jobs_rows(jobs@.take(0)));
    while i < jobs.len()
        invariant
            i <= jobs@.len(),
            out@ == csv_header() + jobs_rows(jobs@.take(i as int)),
        decreases jobs@.len() - i,
    {
        assert(jobs@.take(i + 1).drop_last() =~= jobs@.take(i as int));
        push_job_rows(&mut out, &jobs[i]);
        assert(out@ =~= csv_header() + jobs_rows(jobs@.take(i + 1)));
        i = i + 1;
    }
    assert(jobs@.take(jobs@.len() as int) =~= jobs@);
    out
}

/// The Markdown export of `jobs`, with each job's result pretty-printed as JSON.
pub fn markdown_export(jobs: &Vec<job::Model>) -> (r: String)
    ensures
        r@ == markdown_document(jobs@),
{
    let mut out = String::new();
    let mut i: usize = 0;
    assert(jobs@.take(0) =~= Seq::<job::Model>::empty());
    while i < jobs.len()
        invariant
            i <= jobs@.len(),
            out@ == markdown_document(jobs@.take(i as int)),
        decreases jobs@.len() - i,
    {
        assert(jobs@.take(i + 1).drop_last() =~= jobs@.take(i as int));
        let pretty = to_json_pretty(&jobs[i].result);
        out.append("# Job: ");
        out.append(jobs[i].id.as_str());
        out.append("\n\n");
        out.append("**URL:** ");
        out.append(jobs[i].url.as_str());
        out.append("\n\n");
        out.append("**Results:**\n```json\n");
        out.append(pretty.as_str());
        out.append("\n```\n\n");
        assert(out@ =~= markdown_document(jobs@.take(i + 1)));
        i = i + 1;
    }
    assert(jobs@.take(jobs@.len() as int) =~= jobs@);
    out
}

/// Downloads `jobs` as `csv` or `md`; any other format is refused.
pub fn download(jobs: &Vec<job::Model>, job_format: &str) -> (r: Result<Export, AppError>)
    ensures
        job_format@ == "csv"@ ==> (r matches Ok(e) && e.content_type@ == "text/csv"@
            && e.disposition@ == "attachment; filename=export.csv"@ && e.body@ == csv_document(jobs@)),
        job_format@ == "md"@ ==> (r matches Ok(e) && e.content_type@ == "text/markdown"@
            && e.disposition@ == "attachment; filename=export.md"@ && e.body@ == markdown_document(jobs@)),
        job_format@ != "csv"@ && job_format@ != "md"@ ==> (r matches Err(AppError::Validation(m))
            && m@ == "Unsupported format: "@ + job_format@),
{
    proof {
        reveal_strlit("csv");
        reveal_strlit("md");
        assert("md"@.len() != "csv"@.len());
    }
    if str_eq(job_format, "csv") {
        Ok(
            Export {
                content_type: "text/csv".to_string(),
                disposition: "attachment; filename=export.csv".to_string(),
                body: csv_export(jobs),
            },
        )
    } else if str_eq(job_format, "md") {
        Ok(
            Export {
                content_type: "text/markdown".to_string(),
                disposition: "attachment; filename=export.md".to_string(),
                body: markdown_export(jobs),
            },
        )
    } else {
        let mut m = "Unsupported format: ".to_string();
        m.append(job_format);
        Err(AppError::Validation(m))
    }
}

/// The CSV export lists every job: with no jobs it is the header alone, and adding a job
/// at the end appends that job's rows, in order, to the export of the others.
pub proof fn lemma_csv_document_push(jobs: Seq<job::Model>, j: job::Model)
    ensures
        csv_document(Seq::<job::Model>::empty()) == csv_header(),
        csv_document(jobs.push(j)) == csv_document(jobs) + job_rows(j),
{
    assert(csv_header() + Seq::<char>::empty() =~= csv_header());
    assert(jobs.push(j).drop_last() =~= jobs);
    assert(jobs.push(j).last() == j);
    assert(csv_header() + (jobs_rows(jobs) + job_rows(j)) =~= (csv_header() + jobs_rows(jobs))
        + job_rows(j));
}

/// The Markdown export lists every job: with no jobs it is empty, and adding a job at the
/// end appends that job's section to the export of the others.
pub proof fn lemma_markdown_document_push(jobs: Seq<job::Model>, j: job::Model)
    ensures
        markdown_document(Seq::<job::Model>::empty()) == Seq::<char>::empty(),
        markdown_document(jobs.push(j)) == markdown_document(jobs) + job_section(j),
{
    assert(jobs.push(j).drop_last() =~= jobs);
    assert(jobs.push(j).last() == j);
}

} // verus!
