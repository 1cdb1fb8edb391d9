//! A row of the jobs table.

use vstd::prelude::*;
use crate::json::Json;
use crate::time::Timestamp;

verus! {

/// A stored scrape job.
pub struct Model {
    pub id: String,
    pub url: String,
    pub elements: Json,
    pub user: Option<String>,
    pub time_created: Timestamp,
    pub result: Json,
    pub status: String,
    pub chat: Option<Json>,
    pub job_options: Option<Json>,
    pub agent_mode: bool,
    pub prompt: Option<String>,
    pub favorite: bool,
}

} // verus!
