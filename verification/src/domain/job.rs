//! Jobs: their status and the fields that callers may update.

use vstd::prelude::*;
use crate::text::str_eq;

verus! {

/// The life-cycle state of a scrape job.
#[derive(Debug, Clone, Copy, PartialEq, Eq, Structural)]
pub enum JobStatus {
    Queued,
    Scraping,
    Completed,
    Failed,
}

/// The name under which a status is stored and shown.
pub open spec fn status_name(st: JobStatus) -> Seq<char> {
    match st {
        JobStatus::Queued => "Queued"@,
        JobStatus::Scraping => "Scraping"@,
        JobStatus::Completed => "Completed"@,
        JobStatus::Failed => "Failed"@,
    }
}

/// The status whose name is `s`, if any.
pub open spec fn status_named(s: Seq<char>) -> Option<JobStatus> {
    if s == "Queued"@ {
        Some(JobStatus::Queued)
    } else if s == "Scraping"@ {
        Some(JobStatus::Scraping)
    } else if s == "Completed"@ {
        Some(JobStatus::Completed)
    } else if s == "Failed"@ {
        Some(JobStatus::Failed)
    } else {
        None
    }
}

impl JobStatus {
    /// The status name, as `Display` shows it.
    pub fn name(&self) -> (r: &'static str)
        ensures
            r@ == status_name(*self),
    {
        match self {
            JobStatus::Queued => "Queued",
            JobStatus::Scraping => "Scraping",
            JobStatus::Completed => "Completed",
            JobStatus::Failed => "Failed",
        }
    }

    /// The status name as an owned string.
    pub fn to_string(&self) -> (r: String)
        ensures
            r@ == status_name(*self),
    {
        self.name().to_string()
    }

    /// Parses a status name; an unknown name gives the error message of the service.
    pub fn parse(s: &str) -> (r: Result<JobStatus, String>)
        ensures
            match r {
                Ok(st) => status_named(s@) == Some(st),
                Err(m) => status_named(s@) is None && m@ == "Unknown job status: "@ + s@,
            },
    {
        if str_eq(s, "Queued") {
            Ok(JobStatus::Queued)
        } else if str_eq(s, "Scraping") {
            Ok(JobStatus::Scraping)
        } else if str_eq(s, "Completed") {
            Ok(JobStatus::Completed)
        } else if str_eq(s, "Failed") {
            Ok(JobStatus::Failed)
        } else {
            let mut m = "Unknown job status: ".to_string();
            m.append(s);
            Err(m)
        }
    }
}

impl std::str::FromStr for JobStatus {
    type Err = String;

    /// As [`JobStatus::parse`].
    fn from_str(s: &str) -> (r: Result<JobStatus, String>)
        ensures
            match r {
                Ok(st) => status_named(s@) == Some(st),
                Err(m) => status_named(s@) is None && m@ == "Unknown job status: "@ + s@,
            },
    {
        JobStatus::parse(s)
    }
}

/// Reading back the name of a status gives that status.
pub proof fn lemma_status_name_roundtrip(st: JobStatus)
    ensures
        status_named(status_name(st)) == Some(st),
{
    reveal_strlit("Queued");
    reveal_strlit("Scraping");
    reveal_strlit("Completed");
    reveal_strlit("Failed");
    assert("Queued"@ != "Scraping"@ && "Queued"@ != "Completed"@ && "Queued"@ != "Failed"@) by {
        assert("Queued"@.len() != "Scraping"@.len());
        assert("Queued"@.len() != "Completed"@.len());
        assert("Queued"@[0] != "Failed"@[0]);
    }
    assert("Scraping"@ != "Completed"@ && "Scraping"@ != "Failed"@) by {
        assert("Scraping"@.len() != "Completed"@.len());
        assert("Scraping"@.len() != "Failed"@.len());
    }
    assert("Completed"@ != "Failed"@) by {
        assert("Completed"@.len() != "Failed"@.len());
    }
}


/// The fields of a job that callers may update.
#[derive(Debug, Clone, Copy, PartialEq, Eq, Structural)]
pub enum UpdatableJobField {
    Status,
    Favorite,
    Chat,
    Result,
}

/// The updatable field with this name, if any.
pub open spec fn field_named(s: Seq<char>) -> Option<UpdatableJobField> {
    if s == "status"@ {
        Some(UpdatableJobField::Status)
    } else if s == "favorite"@ {
        Some(UpdatableJobField::Favorite)
    } else if s == "chat"@ {
        Some(UpdatableJobField::Chat)
    } else if s == "result"@ {
        Some(UpdatableJobField::Result)
    } else {
        None
    }
}

impl UpdatableJobField {
    /// Parses a field name; any other name gives the service's error message.
    pub fn parse(s: &str) -> (r: Result<UpdatableJobField, String>)
        ensures
            match r {
                Ok(f) => field_named(s@) == Some(f),
                Err(m) => field_named(s@) is None && m@ == "Field '"@ + s@ + "' is not updatable"@,
            },
    {
        if str_eq(s, "status") {
            Ok(UpdatableJobField::Status)
        } else if str_eq(s, "favorite") {
            Ok(UpdatableJobField::Favorite)
        } else if str_eq(s, "chat") {
            Ok(UpdatableJobField::Chat)
        } else if str_eq(s, "result") {
            Ok(UpdatableJobField::Result)
        } else {
            let mut m = "Field '".to_string();
            m.append(s);
            m.append("' is not updatable");
            Err(m)
        }
    }
}

impl std::str::FromStr for UpdatableJobField {
    type Err = String;

    /// As [`UpdatableJobField::parse`].
    fn from_str(s: &str) -> (r: Result<UpdatableJobField, String>)
        ensures
            match r {
                Ok(f) => field_named(s@) == Some(f),
                Err(m) => field_named(s@) is None && m@ == "Field '"@ + s@ + "' is not updatable"@,
            },
    {
        UpdatableJobField::parse(s)
    }
}

/// An element a job extracts: its name, selector and, optionally, the page it is on.
pub struct Element {
    pub name: String,
    pub xpath: String,
    pub url: Option<String>,
}

/// A value extracted for an element.
pub struct CapturedElement {
    pub xpath: String,
    pub text: String,
    pub name: String,
}

/// A browser action of a site map.
pub struct Action {
    pub action_type: String,
    pub xpath: String,
    pub name: String,
    pub input: String,
    pub do_once: bool,
}

/// The actions a job performs before it extracts.
pub struct SiteMap {
    pub actions: Vec<Action>,
}

/// The options of a job, as its owner gives them.
pub struct JobOptions {
    pub multi_page_scrape: bool,
    pub custom_headers: crate::json::Json,
    pub proxies: Vec<crate::json::Json>,
    pub site_map: Option<SiteMap>,
    pub collect_media: bool,
    pub custom_cookies: Vec<crate::json::Json>,
    pub return_html: bool,
}

/// The value an action's `do_once` takes when it is not given.
pub fn default_true() -> (r: bool)
    ensures
        r,
{
    true
}

} // verus!
