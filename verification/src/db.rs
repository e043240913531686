//! The record that reports a job's progress and result to the job table.

use vstd::prelude::*;
use crate::text::{parse_u64, u64_from_text, i32_text, int_text};

verus! {

/// The table that holds the jobs.
pub const TABLE_NAME: &'static str = "rust_cache";

/// A value of the job table, tagged with its attribute type.
pub enum AttributeValue {
    /// A string.
    S(String),
    /// A number, written in decimal.
    N(String),
}

/// The model of an [`AttributeValue`]: `true` for a number, and the text.
pub open spec fn attribute_view(v: AttributeValue) -> (bool, Seq<char>) {
    match v {
        AttributeValue::S(s) => (false, s@),
        AttributeValue::N(s) => (true, s@),
    }
}

/// The models of an item's attributes.
pub open spec fn item_view(item: Seq<(String, AttributeValue)>) -> Seq<(Seq<char>, (bool, Seq<char>))> {
    item.map_values(|p: (String, AttributeValue)| (p.0@, attribute_view(p.1)))
}

/// The item that records a job in `state` with `result`.
pub open spec fn job_item(code: Seq<char>, expire: Seq<char>, state: Seq<char>, result: Seq<char>) -> Seq<(Seq<char>, (bool, Seq<char>))> {
    seq![
        ("job_auth_code"@, (false, code)),
        ("job_expire_time"@, (true, expire)),
        ("job_state"@, (false, state)),
        ("job_result"@, (false, result)),
    ]
}

/// The job that this run works for: its code and its expiry time.
pub struct JobRecord {
    pub job_code: String,
    pub job_expire_time: String,
}

impl JobRecord {
    /// The record of the job `auth_code`, which expires at `expire_time`
    /// (seconds, in decimal); `None` when `expire_time` is not an unsigned
    /// 64-bit number.
    pub fn init(auth_code: &str, expire_time: String) -> (r: Option<JobRecord>)
        ensures
            r is Some <==> u64_from_text(expire_time@) is Some,
            r matches Some(j) ==> j.job_code@ == auth_code@ && j.job_expire_time == expire_time,
    {
        match parse_u64(expire_time.as_str()) {
            Some(_) => Some(JobRecord { job_code: String::from_str(auth_code), job_expire_time: expire_time }),
            None => None,
        }
    }

    fn item(&self, state: &str, result: String) -> (r: Vec<(String, AttributeValue)>)
        ensures
            item_view(r@) == job_item(self.job_code@, self.job_expire_time@, state@, result@),
    {
        let mut item: Vec<(String, AttributeValue)> = Vec::new();
        item.push((String::from_str("job_auth_code"), AttributeValue::S(self.job_code.clone())));
        item.push((String::from_str("job_expire_time"), AttributeValue::N(self.job_expire_time.clone())));
        item.push((String::from_str("job_state"), AttributeValue::S(String::from_str(state))));
        item.push((String::from_str("job_result"), AttributeValue::S(result)));
        assert(item_view(item@) =~= job_item(self.job_code@, self.job_expire_time@, state@, result@));
        item
    }

    /// The item that marks the job done with its result.
    pub fn result_item(&self, result: String) -> (r: Vec<(String, AttributeValue)>)
        ensures
            item_view(r@) == job_item(self.job_code@, self.job_expire_time@, "DONE"@, result@),
    {
        self.item("DONE", result)
    }

    /// The item that reports the job's progress.
    pub fn progress_item(&self, progress: i32) -> (r: Vec<(String, AttributeValue)>)
        ensures
            item_view(r@) == job_item(self.job_code@, self.job_expire_time@, "PROGRESS"@, int_text(progress as int)),
    {
        self.item("PROGRESS", i32_text(progress))
    }
}

/// Something that progress can be reported to.
pub trait SendProgress {
    /// Reports `progress`.
    fn send(&self, progress: i32);
}

} // verus!
