//! The checkpoint of a clone, saved in the output folder so that an
//! interrupted clone can be resumed.
use vstd::prelude::*;
use crate::paths::{push, push_path};
use crate::text::{chars_of, string_from_chars};

verus! {

/// Name of the checkpoint file inside the output folder.
pub const STATE_FILE: &'static str = ".webcloner-job.json";

/// The clone settings recorded in a checkpoint.
pub struct JobOptionsSnapshot {
    pub include_external_assets: bool,
    pub follow_external_pages: bool,
    pub concurrency: usize,
    pub timeout_secs: u64,
    pub user_agent: String,
    pub block_tracking: bool,
    pub report_broken_links: bool,
}

/// A clone checkpoint.
pub struct JobState {
    pub version: u32,
    pub start_url: String,
    pub site_host: String,
    pub planned_pages: Vec<String>,
    pub done_pages: Vec<String>,
    pub planned_assets: Vec<String>,
    pub done_assets: Vec<String>,
    /// Absolute URL key and the relative path it was saved to.
    pub url_map: Vec<(String, String)>,
    pub options: JobOptionsSnapshot,
    pub phase: String,
    pub updated_at: u64,
}

pub open spec fn state_file_name() -> Seq<char> {
    ".webcloner-job.json"@
}

impl JobState {
    /// The checkpoint file of an output folder.
    pub fn path_for(out_dir: &str) -> (r: String)
        ensures
            r@ == push(out_dir@, state_file_name()),
    {
        let mut p = chars_of(out_dir);
        let name = chars_of(".webcloner-job.json");
        push_path(&mut p, name.as_slice());
        string_from_chars(p.as_slice())
    }

    /// Seconds since the Unix epoch (0 if the clock is before it).
    pub fn now_secs() -> u64 {
        match unix_secs() {
            Some(s) => s,
            None => 0,
        }
    }
}

/// Calls `SystemTime::now().duration_since(UNIX_EPOCH)` and `as_secs`. The
/// clock's reading is not stated.
#[verifier::external_body]
fn unix_secs() -> Option<u64> {
    std::time::SystemTime::now().duration_since(std::time::UNIX_EPOCH).ok().map(|d| d.as_secs())
}

} // verus!
